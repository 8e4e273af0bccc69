//! What an import of a code intelligence dump records: which symbol refers to which, and which of
//! these references are calls, said by the lines of the symbols and the ranges of the dump.
use vstd::prelude::*;
use crate::json::JsonView;
use crate::lsif_graph::{ItemsView, LsifRange, LsifView, RangeRef};
use crate::lsif_index::{ImportView, LsifImport, ReferenceView, SetEntry};
use crate::records::{CodeSymbol, RelationView};
use crate::{digest, file_paths, json, lsif_graph, lsif_index, order, text, uris};

verus! {

// ---------------------------------------------------------------------------
// The symbol over a line
// ---------------------------------------------------------------------------

/// The symbol that a line of a file resolves to starts on the line or before it and ends on it or
/// after it, in that file and under the name that is asked for; of all such symbols it spans the
/// fewest lines, of those the first to start, and of those the first of all. A line resolves to
/// none only where there is none.
pub proof fn a_line_resolves_to_the_least_span(
    symbols: Seq<CodeSymbol>,
    file: Seq<char>,
    line: nat,
    name: Option<Seq<char>>,
)
    ensures
        match lsif_index::symbol_over(symbols, file, line, name) {
            Some(i) => {
                &&& 0 <= i < symbols.len()
                &&& symbols[i].file_path@ == file
                &&& symbols[i].start_line <= line <= symbols[i].end_line
                &&& name matches Some(wanted) ==> symbols[i].name@ == wanted
                &&& forall|j: int|
                    0 <= j < symbols.len() && (#[trigger] symbols[j]).file_path@ == file
                        && symbols[j].start_line <= line <= symbols[j].end_line && (
                    name matches Some(wanted) ==> symbols[j].name@ == wanted) ==> {
                        let least = symbols[i].end_line - symbols[i].start_line;
                        let other = symbols[j].end_line - symbols[j].start_line;
                        &&& least <= other
                        &&& least == other ==> symbols[i].start_line <= symbols[j].start_line
                        &&& least == other && symbols[i].start_line == symbols[j].start_line ==> i
                            <= j
                    }
            },
            None => forall|j: int|
                0 <= j < symbols.len() ==> !((#[trigger] symbols[j]).file_path@ == file
                    && symbols[j].start_line <= line <= symbols[j].end_line && (
                name matches Some(wanted) ==> symbols[j].name@ == wanted)),
        },
{
    lsif_index::symbol_over_is_narrowest(symbols, file, line, name, symbols.len());
    match lsif_index::symbol_over(symbols, file, line, name) {
        Some(i) => {
            assert(lsif_index::stands_over(symbols[i], file, line, name));
            assert forall|j: int|
                0 <= j < symbols.len() && (#[trigger] symbols[j]).file_path@ == file
                    && symbols[j].start_line <= line <= symbols[j].end_line && (
                name matches Some(wanted) ==> symbols[j].name@ == wanted) implies {
                let least = symbols[i].end_line - symbols[i].start_line;
                let other = symbols[j].end_line - symbols[j].start_line;
                &&& least <= other
                &&& least == other ==> symbols[i].start_line <= symbols[j].start_line
                &&& least == other && symbols[i].start_line == symbols[j].start_line ==> i <= j
            } by {
                assert(lsif_index::stands_over(symbols[j], file, line, name));
            }
        },
        None => {
            assert forall|j: int| 0 <= j < symbols.len() implies !((
            #[trigger] symbols[j]).file_path@ == file && symbols[j].start_line <= line
                <= symbols[j].end_line && (name matches Some(wanted) ==> symbols[j].name@
                == wanted)) by {
                assert(!lsif_index::stands_over(symbols[j], file, line, name));
            }
        },
    }
}

/// Whether no symbol of a file over a line spans fewer lines than this one, which is over it.
pub open spec fn has_least_span(
    symbols: Seq<CodeSymbol>,
    i: int,
    file: Seq<char>,
    line: int,
    name: Option<Seq<char>>,
) -> bool {
    &&& 0 <= i < symbols.len()
    &&& symbols[i].file_path@ == file
    &&& symbols[i].start_line <= line <= symbols[i].end_line
    &&& name matches Some(wanted) ==> symbols[i].name@ == wanted
    &&& forall|j: int|
        0 <= j < symbols.len() && (#[trigger] symbols[j]).file_path@ == file
            && symbols[j].start_line <= line <= symbols[j].end_line && (
        name matches Some(wanted) ==> symbols[j].name@ == wanted) ==> symbols[i].end_line
            - symbols[i].start_line <= symbols[j].end_line - symbols[j].start_line
}

/// Whether no symbol of a file is over a line.
pub open spec fn none_is_over(
    symbols: Seq<CodeSymbol>,
    file: Seq<char>,
    line: int,
    name: Option<Seq<char>>,
) -> bool {
    forall|j: int|
        0 <= j < symbols.len() ==> !((#[trigger] symbols[j]).file_path@ == file
            && symbols[j].start_line <= line <= symbols[j].end_line && (
        name matches Some(wanted) ==> symbols[j].name@ == wanted))
}

// ---------------------------------------------------------------------------
// Where a range stands
// ---------------------------------------------------------------------------

/// Whether a range of the dump starts on a line of a file: in the document that contains it, or
/// else the one that is named with it, lines counted from one.
pub open spec fn stands_on(
    g: LsifView,
    root: Seq<char>,
    r: RangeRef,
    file: Seq<char>,
    line: int,
) -> bool {
    let document = if g.range_documents.dom().contains(r.range_id) {
        g.range_documents[r.range_id]
    } else {
        r.document_id
    };
    &&& g.documents.dom().contains(document)
    &&& g.ranges.dom().contains(r.range_id)
    &&& uris::relative_path_of(g.documents[document], root) == Some(file)
    &&& line == g.ranges[r.range_id].start_line + 1
}

proof fn lemma_location(g: LsifView, root: Seq<char>, r: RangeRef)
    ensures
        match lsif_index::location(g, root, r) {
            Some((file, line)) => stands_on(g, root, r, file, line as int),
            None => forall|file: Seq<char>, line: int| !stands_on(g, root, r, file, line),
        },
        forall|file: Seq<char>, line: int|
            stands_on(g, root, r, file, line) ==> lsif_index::location(g, root, r) == Some(
                (file, line as nat),
            ),
{
}

// ---------------------------------------------------------------------------
// Definitions
// ---------------------------------------------------------------------------

/// The ranges that define a result set, as the dump lists them.
pub open spec fn defining_ranges(g: LsifView, set: u64) -> Seq<RangeRef> {
    if g.result_definitions.dom().contains(set) && g.items.dom().contains(
        g.result_definitions[set],
    ) {
        g.items[g.result_definitions[set]].definitions
    } else {
        Seq::empty()
    }
}

/// Whether a range of the dump resolves to a symbol.
pub open spec fn resolves(
    g: LsifView,
    root: Seq<char>,
    symbols: Seq<CodeSymbol>,
    r: RangeRef,
    name: Option<Seq<char>>,
    i: int,
) -> bool {
    exists|file: Seq<char>, line: int|
        stands_on(g, root, r, file, line) && #[trigger] has_least_span(
            symbols,
            i,
            file,
            line,
            name,
        )
}

proof fn lemma_symbol_at(
    g: LsifView,
    root: Seq<char>,
    symbols: Seq<CodeSymbol>,
    r: RangeRef,
    name: Option<Seq<char>>,
)
    ensures
        match lsif_index::symbol_at(g, root, symbols, r, name) {
            Some(i) => resolves(g, root, symbols, r, name, i),
            None => forall|i: int| !resolves(g, root, symbols, r, name, i),
        },
{
    lemma_location(g, root, r);
    match lsif_index::location(g, root, r) {
        Some((file, line)) => {
            a_line_resolves_to_the_least_span(symbols, file, line, name);
            match lsif_index::symbol_over(symbols, file, line, name) {
                Some(i) => {
                    assert(has_least_span(symbols, i, file, line as int, name));
                },
                None => {
                    assert forall|i: int| !resolves(g, root, symbols, r, name, i) by {
                        if resolves(g, root, symbols, r, name, i) {
                            let (f, l) = choose|f: Seq<char>, l: int|
                                stands_on(g, root, r, f, l) && #[trigger] has_least_span(
                                    symbols,
                                    i,
                                    f,
                                    l,
                                    name,
                                );
                            assert(f == file && l == line);
                        }
                    }
                },
            }
        },
        None => {},
    }
}

proof fn lemma_first_defined(
    g: LsifView,
    root: Seq<char>,
    symbols: Seq<CodeSymbol>,
    ranges: Seq<RangeRef>,
    name: Option<Seq<char>>,
    at: int,
)
    requires
        0 <= at <= ranges.len(),
    ensures
        match lsif_index::first_defined(g, root, symbols, ranges, name, at) {
            Some((k, i)) => {
                &&& at <= k < ranges.len()
                &&& resolves(g, root, symbols, ranges[k], name, i)
                &&& forall|l: int, j: int|
                    at <= l < k ==> !#[trigger] resolves(g, root, symbols, ranges[l], name, j)
            },
            None => forall|l: int, j: int|
                at <= l < ranges.len() ==> !#[trigger] resolves(
                    g,
                    root,
                    symbols,
                    ranges[l],
                    name,
                    j,
                ),
        },
    decreases ranges.len() - at,
{
    if at < ranges.len() {
        lemma_symbol_at(g, root, symbols, ranges[at], name);
        lemma_first_defined(g, root, symbols, ranges, name, at + 1);
    }
}

/// The name that a result set goes by: the last of its moniker, where it has one.
pub open spec fn hint_of(g: LsifView, set: u64) -> Option<Seq<char>> {
    if g.result_monikers.dom().contains(set) && g.monikers.dom().contains(
        g.result_monikers[set],
    ) {
        lsif_index::last_name(g.monikers[g.result_monikers[set]])
    } else {
        None
    }
}

/// Whether the definition at a place is the first of a result set that resolves to any symbol, and
/// resolves to this one.
pub open spec fn defines_first(
    g: LsifView,
    root: Seq<char>,
    symbols: Seq<CodeSymbol>,
    set: u64,
    k: int,
    i: int,
) -> bool {
    let ranges = defining_ranges(g, set);
    let name = hint_of(g, set);
    &&& 0 <= k < ranges.len()
    &&& resolves(g, root, symbols, ranges[k], name, i)
    &&& forall|l: int, j: int|
        0 <= l < k ==> !#[trigger] resolves(g, root, symbols, ranges[l], name, j)
}

/// Whether some definition of a result set is the first that resolves, to this symbol.
pub open spec fn is_defined_first(
    g: LsifView,
    root: Seq<char>,
    symbols: Seq<CodeSymbol>,
    set: u64,
    i: int,
) -> bool {
    exists|k: int| #[trigger] defines_first(g, root, symbols, set, k, i)
}

/// A result set stands for the symbol that the first of its defining ranges resolves to which
/// resolves to any, by the last name of its moniker where it has one; where none resolves, it
/// stands for no symbol.
pub proof fn a_result_set_stands_for_its_definition(
    g: LsifView,
    root: Seq<char>,
    symbols: Seq<CodeSymbol>,
    set: u64,
)
    ensures
        lsif_index::target_of(g, root, symbols, set) is Some ==> is_defined_first(
            g,
            root,
            symbols,
            set,
            lsif_index::target_of(g, root, symbols, set)->0,
        ),
        lsif_index::target_of(g, root, symbols, set) is None ==> forall|l: int, j: int|
            0 <= l < defining_ranges(g, set).len() ==> !#[trigger] resolves(
                g,
                root,
                symbols,
                defining_ranges(g, set)[l],
                hint_of(g, set),
                j,
            ),
{
    let ranges = defining_ranges(g, set);
    let name = hint_of(g, set);
    assert(lsif_index::definitions_of(g, set) =~= ranges);
    lemma_first_defined(g, root, symbols, ranges, name, 0);
    let found = lsif_index::first_defined(g, root, symbols, ranges, name, 0);
    if found is Some {
        let (k, i) = found->0;
        assert(lsif_index::target_of(g, root, symbols, set) == Some(i));
        assert(defines_first(g, root, symbols, set, k, i));
    } else {
        assert forall|l: int, j: int|
            0 <= l < defining_ranges(g, set).len() implies !#[trigger] resolves(
            g,
            root,
            symbols,
            defining_ranges(g, set)[l],
            hint_of(g, set),
            j,
        ) by {
            assert(!resolves(g, root, symbols, ranges[l], name, j));
        }
    }
}

/// To find what a result set stands for, its definitions are looked at up to the first that
/// resolves, or all of them where none does.
pub proof fn definitions_are_looked_at_up_to_the_first(
    g: LsifView,
    root: Seq<char>,
    symbols: Seq<CodeSymbol>,
    set: u64,
    k: int,
    i: int,
)
    ensures
        defines_first(g, root, symbols, set, k, i) ==> lsif_index::definitions_looked_at(
            g,
            root,
            symbols,
            set,
        ) == k + 1,
        lsif_index::target_of(g, root, symbols, set) is None ==> lsif_index::definitions_looked_at(
            g,
            root,
            symbols,
            set,
        ) == defining_ranges(g, set).len(),
{
    let ranges = defining_ranges(g, set);
    let name = hint_of(g, set);
    assert(lsif_index::definitions_of(g, set) =~= ranges);
    lemma_first_defined(g, root, symbols, ranges, name, 0);
    let found = lsif_index::first_defined(g, root, symbols, ranges, name, 0);
    if defines_first(g, root, symbols, set, k, i) {
        assert(resolves(g, root, symbols, ranges[k], name, i));
        assert(found is Some);
        let (at, j) = found->0;
        assert(resolves(g, root, symbols, ranges[at], name, j));
        if at < k {
            assert(!resolves(g, root, symbols, ranges[at], name, j));
        }
        if k < at {
            assert(!resolves(g, root, symbols, ranges[k], name, i));
        }
    }
}

/// A result set counts as resolved where it stands for a symbol, and with the definitions that
/// were looked at for it.
pub proof fn resolved_sets_are_counted(
    g: LsifView,
    root: Seq<char>,
    symbols: Seq<CodeSymbol>,
    sets: Seq<SetEntry>,
    entry: SetEntry,
)
    ensures
        lsif_index::targets_resolved(g, root, symbols, sets.push(entry))
            == lsif_index::targets_resolved(g, root, symbols, sets) + (if lsif_index::target_of(
            g,
            root,
            symbols,
            entry.0,
        ) is Some {
            1int
        } else {
            0
        }),
        lsif_index::definitions_seen(g, root, symbols, sets.push(entry))
            == lsif_index::definitions_seen(g, root, symbols, sets)
            + lsif_index::definitions_looked_at(g, root, symbols, entry.0),
{
    assert(sets.push(entry).drop_last() =~= sets);
}

/// A moniker names what stands behind its last `::`, or all of it where it holds none; `impl` and
/// `crate` name nothing, and what stands before them is asked instead.
pub proof fn monikers_name_their_last_part(front: Seq<char>, name: Seq<char>)
    requires
        !name.contains(':'),
    ensures
        name != "impl"@ && name != "crate"@ ==> lsif_index::last_name(front + "::"@ + name) == Some(
            name,
        ),
        name != "impl"@ && name != "crate"@ ==> lsif_index::last_name(name) == Some(name),
        name == "impl"@ || name == "crate"@ ==> lsif_index::last_name(front + "::"@ + name)
            == lsif_index::last_name(front),
        name == "impl"@ || name == "crate"@ ==> lsif_index::last_name(name) is None,
{
    reveal_strlit("::");
    let s = front + "::"@ + name;
    lemma_last_separator_behind(front, name);
    assert(s.skip(front.len() as int + 2) =~= name);
    assert(s.take(front.len() as int) =~= front);
    lemma_no_separator(name);
}

proof fn lemma_no_separator(s: Seq<char>)
    requires
        !s.contains(':'),
    ensures
        lsif_index::last_separator(s) is None,
    decreases s.len(),
{
    if s.len() >= 2 {
        assert(s[s.len() - 1] != ':') by {
            if s[s.len() - 1] == ':' {
                assert(s.contains(':'));
            }
        }
        let rest = s.drop_last();
        assert forall|i: int| 0 <= i < rest.len() implies rest[i] != ':' by {
            if rest[i] == ':' {
                assert(s[i] == ':');
                assert(s.contains(':'));
            }
        }
        lemma_no_separator(rest);
    }
}

proof fn lemma_last_separator_behind(front: Seq<char>, name: Seq<char>)
    requires
        !name.contains(':'),
    ensures
        lsif_index::last_separator(front + "::"@ + name) == Some(front.len() as int),
    decreases name.len(),
{
    reveal_strlit("::");
    let s = front + "::"@ + name;
    if name.len() == 0 {
        assert(s[s.len() - 2] == ':' && s[s.len() - 1] == ':');
    } else {
        assert(name[name.len() - 1] != ':') by {
            if name[name.len() - 1] == ':' {
                assert(name.contains(':'));
            }
        }
        assert(s[s.len() - 1] == name[name.len() - 1]);
        let rest = name.drop_last();
        assert forall|i: int| 0 <= i < rest.len() implies rest[i] != ':' by {
            if rest[i] == ':' {
                assert(name[i] == ':');
                assert(name.contains(':'));
            }
        }
        assert(s.drop_last() =~= front + "::"@ + rest);
        lemma_last_separator_behind(front, rest);
    }
}

// ---------------------------------------------------------------------------
// Calls
// ---------------------------------------------------------------------------

/// Whether nothing but white space stands in a line between a character and a bracket that opens,
/// or an exclamation mark.
pub open spec fn opens_call(line: Seq<char>, from: int) -> bool {
    exists|j: int|
        from <= j < line.len() && (#[trigger] line[j] == '(' || line[j] == '!') && forall|l: int|
            from <= l < j ==> text::is_space(#[trigger] line[l])
}

/// Whether a range is a call: it ends on the line it starts on, and what follows it opens a call.
pub open spec fn is_call_in(range: LsifRange, lines: Seq<Seq<char>>) -> bool {
    &&& range.start_line == range.end_line
    &&& range.end_line < lines.len()
    &&& opens_call(lines[range.end_line as int], range.end_character as int)
}

proof fn lemma_trimmed_start(s: Seq<char>) -> (k: int)
    ensures
        0 <= k <= s.len(),
        text::trimmed_start(s) == s.skip(k),
        k < s.len() ==> !text::is_space(s[k]),
        forall|l: int| 0 <= l < k ==> text::is_space(#[trigger] s[l]),
    decreases s.len(),
{
    if s.len() > 0 && text::is_space(s[0]) {
        let rest = s.drop_first();
        let k = lemma_trimmed_start(rest);
        assert(rest.skip(k) =~= s.skip(k + 1));
        assert forall|l: int| 0 <= l < k + 1 implies text::is_space(#[trigger] s[l]) by {
            if l > 0 {
                assert(rest[l - 1] == s[l]);
            }
        }
        if k < rest.len() {
            assert(rest[k] == s[k + 1]);
        }
        k + 1
    } else {
        assert(s.skip(0) =~= s);
        0
    }
}

proof fn lemma_call_follows(line: Seq<char>, character: nat)
    ensures
        lsif_index::call_follows(line, character) <==> opens_call(line, character as int),
{
    if character <= line.len() {
        let s = line.skip(character as int);
        let k = lemma_trimmed_start(s);
        let at = character + k;
        if k < s.len() {
            assert(s.skip(k)[0] == line[at]);
            assert(s[k] == line[at]);
        }
        assert forall|l: int| character <= l < at implies text::is_space(#[trigger] line[l]) by {
            assert(s[l - character] == line[l]);
        }
        if lsif_index::call_follows(line, character) {
            assert(line[at] == '(' || line[at] == '!');
        }
        if opens_call(line, character as int) {
            let j = choose|j: int|
                character <= j < line.len() && (#[trigger] line[j] == '(' || line[j] == '!')
                    && forall|l: int| character <= l < j ==> text::is_space(#[trigger] line[l]);
            assert(!text::is_space(line[j]));
            assert(j == at) by {
                if j < at {
                    assert(text::is_space(line[j]));
                }
                if at < j {
                    assert(text::is_space(line[at]));
                }
            }
        }
    }
}

/// A range is taken for a call exactly where what follows it on its line opens one.
pub proof fn calls_are_what_opens_a_bracket(range: LsifRange, lines: Seq<Seq<char>>)
    ensures
        lsif_index::is_call(range, Some(lines)) == Some(is_call_in(range, lines)),
        range.start_line != range.end_line ==> lsif_index::is_call(range, None) == Some(false),
        range.start_line == range.end_line ==> lsif_index::is_call(range, None) is None,
{
    if range.end_line < lines.len() {
        lemma_call_follows(lines[range.end_line as int], range.end_character as nat);
    }
}

// ---------------------------------------------------------------------------
// References
// ---------------------------------------------------------------------------

/// The ranges that refer to a result set, as the dump lists them.
pub open spec fn referring_ranges(g: LsifView, set: u64) -> Seq<RangeRef> {
    if g.result_references.dom().contains(set) && g.items.dom().contains(
        g.result_references[set],
    ) {
        g.items[g.result_references[set]].references
    } else {
        Seq::empty()
    }
}

/// The words by which a result set is referred to: its moniker, or the name of its symbol.
pub open spec fn reference_name(g: LsifView, set: u64, target: CodeSymbol) -> Seq<char> {
    if g.result_monikers.dom().contains(set) && g.monikers.dom().contains(
        g.result_monikers[set],
    ) {
        g.monikers[g.result_monikers[set]]
    } else {
        target.name@
    }
}

/// Whether a reference is the one at a place of a result set.
spec fn is_reference(
    reference: ReferenceView,
    g: LsifView,
    root: Seq<char>,
    symbols: Seq<CodeSymbol>,
    set: u64,
    k: int,
) -> bool {
    &&& 0 <= k < referring_ranges(g, set).len()
    &&& reference.range == referring_ranges(g, set)[k]
    &&& lsif_index::target_of(g, root, symbols, set) == Some(reference.symbol)
    &&& 0 <= reference.symbol < symbols.len()
    &&& reference.name == reference_name(g, set, symbols[reference.symbol])
}

proof fn lemma_target_in_range(g: LsifView, root: Seq<char>, symbols: Seq<CodeSymbol>, set: u64)
    ensures
        lsif_index::target_of(g, root, symbols, set) matches Some(t) ==> 0 <= t < symbols.len(),
{
    a_result_set_stands_for_its_definition(g, root, symbols, set);
    if lsif_index::target_of(g, root, symbols, set) is Some {
        let t = lsif_index::target_of(g, root, symbols, set)->0;
        let k = choose|k: int| #[trigger] defines_first(g, root, symbols, set, k, t);
        assert(defines_first(g, root, symbols, set, k, t));
    }
}

proof fn lemma_references(
    g: LsifView,
    root: Seq<char>,
    symbols: Seq<CodeSymbol>,
    sets: Seq<SetEntry>,
)
    requires
        forall|i: int|
            0 <= i < sets.len() ==> g.result_references.contains_pair(
                (#[trigger] sets[i]).0,
                sets[i].1,
            ),
    ensures
        ({
            let all = lsif_index::references_of_sets(g, root, symbols, sets);
            &&& forall|i: int|
                0 <= i < all.len() ==> is_some_reference(#[trigger] all[i], g, root, symbols)
            &&& forall|i: int, k: int, r: ReferenceView|
                0 <= i < sets.len() && #[trigger] is_reference(
                    r,
                    g,
                    root,
                    symbols,
                    (#[trigger] sets[i]).0,
                    k,
                ) ==> all.contains(r)
        }),
    decreases sets.len(),
{
    if sets.len() > 0 {
        let front = sets.drop_last();
        assert forall|i: int| 0 <= i < front.len() implies g.result_references.contains_pair(
            (#[trigger] front[i]).0,
            front[i].1,
        ) by {
            assert(front[i] == sets[i]);
        }
        lemma_references(g, root, symbols, front);
        let a = lsif_index::references_of_sets(g, root, symbols, front);
        let b = lsif_index::references_of_set(g, root, symbols, sets.last());
        let all = lsif_index::references_of_sets(g, root, symbols, sets);
        assert(all == a + b);
        let set = sets.last().0;
        assert(sets[sets.len() - 1] == sets.last());
        assert(g.result_references.contains_pair(set, sets.last().1));
        lemma_target_in_range(g, root, symbols, set);
        assert(lsif_graph::items_at(g, sets.last().1).references =~= referring_ranges(g, set));
        assert forall|i: int| 0 <= i < all.len() implies is_some_reference(
            #[trigger] all[i],
            g,
            root,
            symbols,
        ) by {
            if i < a.len() {
                assert(all[i] == a[i]);
            } else {
                assert(all[i] == b[i - a.len()]);
                assert(is_reference(all[i], g, root, symbols, set, i - a.len()));
            }
        }
        assert forall|i: int, k: int, r: ReferenceView|
            0 <= i < sets.len() && #[trigger] is_reference(
                r,
                g,
                root,
                symbols,
                (#[trigger] sets[i]).0,
                k,
            ) implies all.contains(r) by {
            if i < front.len() {
                assert(front[i] == sets[i]);
                assert(is_reference(r, g, root, symbols, front[i].0, k));
                assert(a.contains(r));
                let o = choose|o: int| 0 <= o < a.len() && a[o] == r;
                assert(all[o] == r);
            } else {
                assert(b[k] == r);
                assert(all[a.len() + k] == r);
            }
        }
    }
}

spec fn is_some_reference(
    r: ReferenceView,
    g: LsifView,
    root: Seq<char>,
    symbols: Seq<CodeSymbol>,
) -> bool {
    exists|set: u64, k: int| #[trigger] is_reference(r, g, root, symbols, set, k)
}

proof fn lemma_all_references(g: LsifView, root: Seq<char>, symbols: Seq<CodeSymbol>)
    requires
        g.result_references.dom().finite(),
    ensures
        ({
            let all = lsif_index::references_of(g, root, symbols);
            &&& forall|i: int|
                0 <= i < all.len() ==> is_some_reference(#[trigger] all[i], g, root, symbols)
            &&& forall|set: u64, k: int, r: ReferenceView| #[trigger]
                is_reference(r, g, root, symbols, set, k) ==> all.contains(r)
        }),
{
    order::listing_exists(g.result_references);
    let sets = order::sorted_entries(g.result_references);
    lemma_references(g, root, symbols, sets);
    let all = lsif_index::references_of(g, root, symbols);
    assert forall|set: u64, k: int, r: ReferenceView| #[trigger]
        is_reference(r, g, root, symbols, set, k) implies all.contains(r) by {
        assert(g.result_references.dom().contains(set));
        let i = choose|i: int| 0 <= i < sets.len() && (#[trigger] sets[i]).0 == set;
        assert(is_reference(r, g, root, symbols, sets[i].0, k));
    }
}

// ---------------------------------------------------------------------------
// Relations
// ---------------------------------------------------------------------------

/// The relation of a kind that a range in a file gives, from the symbol around it to its target.
pub open spec fn relation_due(
    kind: Seq<char>,
    project_id: Seq<char>,
    file: Seq<char>,
    from: Option<Seq<char>>,
    target: CodeSymbol,
    name: Seq<char>,
    range_id: u64,
) -> RelationView {
    RelationView {
        id: "raref_"@ + digest::blake3_text(
            kind + ":"@ + project_id + ":"@ + file + ":"@ + (if from is Some {
                from->0
            } else {
                "file"@
            }) + ":"@ + target.id@ + ":"@ + text::decimal_text(range_id as nat),
        ),
        project_id,
        from_symbol_id: from,
        from_file_path: file,
        relation_kind: kind,
        target_name: name,
        target_symbol_id: Some(target.id@),
    }
}

/// Whether an id is that of the symbol of least span around a line, or there is neither.
pub open spec fn is_around(
    symbols: Seq<CodeSymbol>,
    file: Seq<char>,
    line: int,
    from: Option<Seq<char>>,
) -> bool {
    match from {
        Some(id) => exists|i: int| #[trigger]
            has_least_span(symbols, i, file, line, None) && symbols[i].id@ == id,
        None => none_is_over(symbols, file, line, None),
    }
}

/// Whether a relation is recorded for the range at a place of those that refer to a result set:
/// its file, the symbol around its line, and the symbol that the result set stands for, which does
/// not start on that line. It is a reference, or a call where the source opens one.
pub open spec fn records(
    relation: RelationView,
    g: LsifView,
    root: Seq<char>,
    project_id: Seq<char>,
    symbols: Seq<CodeSymbol>,
    sources: Map<Seq<char>, Seq<Seq<char>>>,
    set: u64,
    k: int,
) -> bool {
    let r = referring_ranges(g, set)[k];
    let target = lsif_index::target_of(g, root, symbols, set);
    let line = g.ranges[r.range_id].start_line + 1;
    let file = relation.from_file_path;
    &&& 0 <= k < referring_ranges(g, set).len()
    &&& target is Some
    &&& 0 <= target->0 < symbols.len()
    &&& stands_on(g, root, r, file, line)
    &&& !(symbols[target->0].file_path@ == file && symbols[target->0].start_line == line)
    &&& is_around(symbols, file, line, relation.from_symbol_id)
    &&& relation.relation_kind == "ra_reference"@ || relation.relation_kind == "ra_call"@
        && sources.dom().contains(file) && is_call_in(g.ranges[r.range_id], sources[file])
    &&& relation == relation_due(
        relation.relation_kind,
        project_id,
        file,
        relation.from_symbol_id,
        symbols[target->0],
        reference_name(g, set, symbols[target->0]),
        r.range_id,
    )
}

/// Whether a relation is recorded for some range of the dump.
pub open spec fn is_recorded(
    relation: RelationView,
    g: LsifView,
    root: Seq<char>,
    project_id: Seq<char>,
    symbols: Seq<CodeSymbol>,
    sources: Map<Seq<char>, Seq<Seq<char>>>,
) -> bool {
    exists|set: u64, k: int| #[trigger]
        records(relation, g, root, project_id, symbols, sources, set, k)
}

proof fn lemma_around(symbols: Seq<CodeSymbol>, file: Seq<char>, line: nat)
    ensures
        is_around(
            symbols,
            file,
            line as int,
            match lsif_index::symbol_over(symbols, file, line, None) {
                Some(i) => Some(symbols[i].id@),
                None => None,
            },
        ),
{
    a_line_resolves_to_the_least_span(symbols, file, line, None);
    if lsif_index::symbol_over(symbols, file, line, None) is Some {
        let i = lsif_index::symbol_over(symbols, file, line, None)->0;
        assert(has_least_span(symbols, i, file, line as int, None));
    }
}

proof fn lemma_relations(
    g: LsifView,
    root: Seq<char>,
    project_id: Seq<char>,
    symbols: Seq<CodeSymbol>,
    sources: Map<Seq<char>, Seq<Seq<char>>>,
    references: Seq<ReferenceView>,
)
    requires
        forall|i: int|
            0 <= i < references.len() ==> is_some_reference(
                #[trigger] references[i],
                g,
                root,
                symbols,
            ),
    ensures
        ({
            let done = lsif_index::with_references(
                g,
                root,
                project_id,
                symbols,
                sources,
                references,
            );
            &&& forall|i: int|
                0 <= i < done.relations.len() ==> is_recorded(
                    #[trigger] done.relations[i],
                    g,
                    root,
                    project_id,
                    symbols,
                    sources,
                )
            &&& done.failure is None ==> forall|i: int|
                0 <= i < references.len() ==> is_taken(
                    done.relations,
                    g,
                    root,
                    project_id,
                    symbols,
                    sources,
                    #[trigger] references[i],
                )
        }),
    decreases references.len(),
{
    if references.len() > 0 {
        let front = references.drop_last();
        let r = references.last();
        assert forall|i: int| 0 <= i < front.len() implies is_some_reference(
            #[trigger] front[i],
            g,
            root,
            symbols,
        ) by {
            assert(front[i] == references[i]);
        }
        lemma_relations(g, root, project_id, symbols, sources, front);
        let before = lsif_index::with_references(g, root, project_id, symbols, sources, front);
        let done = lsif_index::with_references(g, root, project_id, symbols, sources, references);
        assert(is_some_reference(references[references.len() - 1], g, root, symbols));
        let (set, k) = choose|set: u64, k: int| #[trigger]
            is_reference(r, g, root, symbols, set, k);
        lemma_location(g, root, r.range);
        if let Some((file, line)) = lsif_index::location(g, root, r.range) {
            lemma_around(symbols, file, line);
            if sources.dom().contains(file) {
                calls_are_what_opens_a_bracket(g.ranges[r.range.range_id], sources[file]);
            }
        }
        assert forall|i: int| 0 <= i < done.relations.len() implies is_recorded(
            #[trigger] done.relations[i],
            g,
            root,
            project_id,
            symbols,
            sources,
        ) by {
            if i < before.relations.len() {
                assert(done.relations[i] == before.relations[i]);
            } else {
                assert(records(
                    done.relations[i],
                    g,
                    root,
                    project_id,
                    symbols,
                    sources,
                    set,
                    k,
                ));
            }
        }
        if done.failure is None {
            assert(before.failure is None);
            assert forall|i: int| 0 <= i < references.len() implies is_taken(
                done.relations,
                g,
                root,
                project_id,
                symbols,
                sources,
                #[trigger] references[i],
            ) by {
                if i < front.len() {
                    assert(front[i] == references[i]);
                    assert(is_taken(
                        before.relations,
                        g,
                        root,
                        project_id,
                        symbols,
                        sources,
                        references[i],
                    ));
                    lemma_still_taken(
                        before.relations,
                        done.relations,
                        g,
                        root,
                        project_id,
                        symbols,
                        sources,
                        references[i],
                    );
                } else {
                    lemma_taken(before, g, root, project_id, symbols, sources, r);
                }
            }
        }
    }
}

/// Whether the relations hold those that are due for a reference.
spec fn is_taken(
    relations: Seq<RelationView>,
    g: LsifView,
    root: Seq<char>,
    project_id: Seq<char>,
    symbols: Seq<CodeSymbol>,
    sources: Map<Seq<char>, Seq<Seq<char>>>,
    r: ReferenceView,
) -> bool {
    forall|file: Seq<char>, line: int|
        stands_on(g, root, r.range, file, line) && !(symbols[r.symbol].file_path@ == file
            && symbols[r.symbol].start_line == line) ==> #[trigger] is_taken_at(
            relations,
            g,
            project_id,
            symbols,
            sources,
            r,
            file,
            line,
        )
}

spec fn is_taken_at(
    relations: Seq<RelationView>,
    g: LsifView,
    project_id: Seq<char>,
    symbols: Seq<CodeSymbol>,
    sources: Map<Seq<char>, Seq<Seq<char>>>,
    r: ReferenceView,
    file: Seq<char>,
    line: int,
) -> bool {
    exists|from: Option<Seq<char>>| #[trigger]
        is_around(symbols, file, line, from) && relations.contains(
            relation_due(
                "ra_reference"@,
                project_id,
                file,
                from,
                symbols[r.symbol],
                r.name,
                r.range.range_id,
            ),
        ) && (sources.dom().contains(file) && is_call_in(g.ranges[r.range.range_id], sources[file])
            ==> relations.contains(
            relation_due(
                "ra_call"@,
                project_id,
                file,
                from,
                symbols[r.symbol],
                r.name,
                r.range.range_id,
            ),
        ))
}

proof fn lemma_still_taken(
    relations: Seq<RelationView>,
    more: Seq<RelationView>,
    g: LsifView,
    root: Seq<char>,
    project_id: Seq<char>,
    symbols: Seq<CodeSymbol>,
    sources: Map<Seq<char>, Seq<Seq<char>>>,
    r: ReferenceView,
)
    requires
        is_taken(relations, g, root, project_id, symbols, sources, r),
        relations.len() <= more.len(),
        forall|i: int| 0 <= i < relations.len() ==> #[trigger] relations[i] == more[i],
    ensures
        is_taken(more, g, root, project_id, symbols, sources, r),
{
    assert forall|x: RelationView| relations.contains(x) implies more.contains(x) by {
        let i = choose|i: int| 0 <= i < relations.len() && relations[i] == x;
        assert(more[i] == x);
    }
    assert forall|file: Seq<char>, line: int|
        stands_on(g, root, r.range, file, line) && !(symbols[r.symbol].file_path@ == file
            && symbols[r.symbol].start_line == line) implies #[trigger] is_taken_at(
        more,
        g,
        project_id,
        symbols,
        sources,
        r,
        file,
        line,
    ) by {
        assert(is_taken_at(relations, g, project_id, symbols, sources, r, file, line));
        let from = choose|from: Option<Seq<char>>| #[trigger]
            is_around(symbols, file, line, from) && relations.contains(
                relation_due(
                    "ra_reference"@,
                    project_id,
                    file,
                    from,
                    symbols[r.symbol],
                    r.name,
                    r.range.range_id,
                ),
            ) && (sources.dom().contains(file) && is_call_in(
                g.ranges[r.range.range_id],
                sources[file],
            ) ==> relations.contains(
                relation_due(
                    "ra_call"@,
                    project_id,
                    file,
                    from,
                    symbols[r.symbol],
                    r.name,
                    r.range.range_id,
                ),
            ));
        assert(is_around(symbols, file, line, from));
    }
}

proof fn lemma_taken(
    before: ImportView,
    g: LsifView,
    root: Seq<char>,
    project_id: Seq<char>,
    symbols: Seq<CodeSymbol>,
    sources: Map<Seq<char>, Seq<Seq<char>>>,
    r: ReferenceView,
)
    requires
        before.failure is None,
        0 <= r.symbol < symbols.len(),
        lsif_index::with_reference(before, g, root, project_id, symbols, sources, r).failure
            is None,
    ensures
        is_taken(
            lsif_index::with_reference(
                before,
                g,
                root,
                project_id,
                symbols,
                sources,
                r,
            ).relations,
            g,
            root,
            project_id,
            symbols,
            sources,
            r,
        ),
{
    let done = lsif_index::with_reference(before, g, root, project_id, symbols, sources, r);
    lemma_location(g, root, r.range);
    assert forall|file: Seq<char>, line: int|
        stands_on(g, root, r.range, file, line) && !(symbols[r.symbol].file_path@ == file
            && symbols[r.symbol].start_line == line) implies #[trigger] is_taken_at(
        done.relations,
        g,
        project_id,
        symbols,
        sources,
        r,
        file,
        line,
    ) by {
        lemma_around(symbols, file, line as nat);
        let from = match lsif_index::symbol_over(symbols, file, line as nat, None) {
            Some(i) => Some(symbols[i].id@),
            None => None,
        };
        if sources.dom().contains(file) {
            calls_are_what_opens_a_bracket(g.ranges[r.range.range_id], sources[file]);
        }
        assert(is_around(symbols, file, line, from));
        let n = before.relations.len() as int;
        assert(done.relations[n] == relation_due(
            "ra_reference"@,
            project_id,
            file,
            from,
            symbols[r.symbol],
            r.name,
            r.range.range_id,
        ));
        if sources.dom().contains(file) && is_call_in(g.ranges[r.range.range_id], sources[file]) {
            assert(done.relations[n + 1] == relation_due(
                "ra_call"@,
                project_id,
                file,
                from,
                symbols[r.symbol],
                r.name,
                r.range.range_id,
            ));
        }
    }
}

/// Every relation of an import is recorded for a range of the dump: it comes from the symbol of
/// least span around that range, leads to the symbol that the range refers to, and is a call only
/// where the source opens one.
pub proof fn relations_name_who_refers_to_whom(
    g: LsifView,
    root: Seq<char>,
    project_id: Seq<char>,
    symbols: Seq<CodeSymbol>,
    sources: Map<Seq<char>, Seq<Seq<char>>>,
    i: int,
)
    requires
        g.result_references.dom().finite(),
        0 <= i < lsif_index::import_of(g, root, project_id, symbols, sources).relations.len(),
    ensures
        is_recorded(
            lsif_index::import_of(g, root, project_id, symbols, sources).relations[i],
            g,
            root,
            project_id,
            symbols,
            sources,
        ),
{
    lemma_all_references(g, root, symbols);
    lemma_relations(
        g,
        root,
        project_id,
        symbols,
        sources,
        lsif_index::references_of(g, root, symbols),
    );
}

/// An import that does not stop short records every range that refers to a symbol, unless it is
/// the line that the symbol starts on: as a reference, and as a call too where the source opens
/// one, from the symbol of least span around it.
pub proof fn every_reference_is_recorded(
    g: LsifView,
    root: Seq<char>,
    project_id: Seq<char>,
    symbols: Seq<CodeSymbol>,
    sources: Map<Seq<char>, Seq<Seq<char>>>,
    set: u64,
    k: int,
    file: Seq<char>,
    target: int,
)
    requires
        g.result_references.dom().finite(),
        lsif_index::import_of(g, root, project_id, symbols, sources).failure is None,
        0 <= k < referring_ranges(g, set).len(),
        lsif_index::target_of(g, root, symbols, set) == Some(target),
        stands_on(
            g,
            root,
            referring_ranges(g, set)[k],
            file,
            g.ranges[referring_ranges(g, set)[k].range_id].start_line + 1,
        ),
        !(symbols[target].file_path@ == file && symbols[target].start_line
            == g.ranges[referring_ranges(g, set)[k].range_id].start_line + 1),
    ensures
        ({
            let relations = lsif_index::import_of(
                g,
                root,
                project_id,
                symbols,
                sources,
            ).relations;
            let range_id = referring_ranges(g, set)[k].range_id;
            let name = reference_name(g, set, symbols[target]);
            exists|from: Option<Seq<char>>| #[trigger]
                is_around(symbols, file, g.ranges[range_id].start_line + 1, from)
                    && relations.contains(
                    relation_due(
                        "ra_reference"@,
                        project_id,
                        file,
                        from,
                        symbols[target],
                        name,
                        range_id,
                    ),
                ) && (sources.dom().contains(file) && is_call_in(
                    g.ranges[range_id],
                    sources[file],
                ) ==> relations.contains(
                    relation_due(
                        "ra_call"@,
                        project_id,
                        file,
                        from,
                        symbols[target],
                        name,
                        range_id,
                    ),
                ))
        }),
{
    lemma_all_references(g, root, symbols);
    let all = lsif_index::references_of(g, root, symbols);
    lemma_relations(g, root, project_id, symbols, sources, all);
    lemma_target_in_range(g, root, symbols, set);
    let r = ReferenceView {
        symbol: target,
        name: reference_name(g, set, symbols[target]),
        range: referring_ranges(g, set)[k],
    };
    assert(is_reference(r, g, root, symbols, set, k));
    assert(all.contains(r));
    let o = choose|o: int| 0 <= o < all.len() && all[o] == r;
    let relations = lsif_index::import_of(g, root, project_id, symbols, sources).relations;
    assert(is_taken(relations, g, root, project_id, symbols, sources, all[o]));
    assert(is_taken_at(
        relations,
        g,
        project_id,
        symbols,
        sources,
        r,
        file,
        g.ranges[r.range.range_id].start_line + 1,
    ));
}

/// An import reports the relations that are due, as many as it tells, and counts documents, ranges,
/// definitions and what it skipped.
pub proof fn imports_report_what_they_recorded(
    r: LsifImport,
    g: LsifView,
    root: Seq<char>,
    project_id: Seq<char>,
    source: Seq<char>,
    symbols: Seq<CodeSymbol>,
    stale: nat,
    sources: Map<Seq<char>, Seq<Seq<char>>>,
    i: int,
)
    requires
        lsif_index::imports(r, g, root, project_id, source, symbols, stale, sources),
        g.documents.dom().finite(),
        g.ranges.dom().finite(),
    ensures
        ({
            let due = lsif_index::import_of(g, root, project_id, symbols, sources);
            let sets = order::sorted_entries(g.result_definitions);
            &&& r.relations@.len() == due.relations.len()
            &&& 0 <= i < r.relations@.len() ==> {
                let c = r.relations@[i];
                &&& c.id@ == due.relations[i].id
                &&& c.project_id@ == due.relations[i].project_id
                &&& text::opt_text(c.from_symbol_id) == due.relations[i].from_symbol_id
                &&& c.from_file_path@ == due.relations[i].from_file_path
                &&& c.relation_kind@ == due.relations[i].relation_kind
                &&& c.target_name@ == due.relations[i].target_name
                &&& text::opt_text(c.target_symbol_id) == due.relations[i].target_symbol_id
            }
            &&& r.failure is None <==> due.failure is None
            &&& r.report.relations_imported + r.report.call_relations_imported
                == r.relations@.len()
            &&& r.report.relations_imported + r.report.relations_skipped
                == r.report.reference_ranges_seen
            &&& r.report.call_relations_imported == due.calls
            &&& r.report.documents == g.documents.dom().len()
            &&& r.report.ranges == g.ranges.dom().len()
            &&& r.report.target_symbols_resolved == lsif_index::targets_resolved(
                g,
                root,
                symbols,
                sets,
            )
            &&& r.report.definitions_seen == lsif_index::definitions_seen(g, root, symbols, sets)
            &&& r.report.stale_relations_removed == stale
            &&& r.report.project_id@ == project_id
            &&& r.report.root_path@ == root
            &&& r.report.source@ == source
        }),
{
    let due = lsif_index::import_of(g, root, project_id, symbols, sources);
    lsif_index::import_accounts_for_references(
        g,
        root,
        project_id,
        symbols,
        sources,
        lsif_index::references_of(g, root, symbols),
    );
    assert(lsif_index::relation_views(r.relations@).len() == r.relations@.len());
    if 0 <= i < r.relations@.len() {
        assert(lsif_index::relation_views(r.relations@)[i] == r.relations@[i]@);
    }
    lemma_entry_count(g.documents);
    lemma_entry_count(g.ranges);
}

proof fn lemma_entry_count<V>(m: Map<u64, V>)
    requires
        m.dom().finite(),
    ensures
        order::sorted_entries(m).len() == m.dom().len(),
{
    order::listing_exists(m);
    let s = order::sorted_entries(m);
    let keys = s.map_values(|e: (u64, V)| e.0);
    assert(keys.no_duplicates()) by {
        assert forall|i: int, j: int|
            0 <= i < keys.len() && 0 <= j < keys.len() && i != j implies keys[i] != keys[j] by {
            if i < j {
                assert(order::KeyOrder::before(s[i].0, s[j].0));
            } else {
                assert(order::KeyOrder::before(s[j].0, s[i].0));
            }
        }
    }
    keys.unique_seq_to_set();
    assert(keys.to_set() =~= m.dom()) by {
        assert forall|k: u64| keys.to_set().contains(k) <==> #[trigger] m.dom().contains(k) by {
            if m.dom().contains(k) {
                let i = choose|i: int| 0 <= i < s.len() && (#[trigger] s[i]).0 == k;
                assert(keys[i] == k);
            }
            if keys.contains(k) {
                let i = choose|i: int| 0 <= i < keys.len() && keys[i] == k;
                assert(m.contains_pair(s[i].0, s[i].1));
            }
        }
    }
}

// ---------------------------------------------------------------------------
// Sources
// ---------------------------------------------------------------------------

/// Whether a file is one whose source an import reads: a range in it that refers to a symbol, not
/// on the line that the symbol starts on, lies on one line.
pub open spec fn is_read(
    g: LsifView,
    root: Seq<char>,
    symbols: Seq<CodeSymbol>,
    set: u64,
    k: int,
    file: Seq<char>,
) -> bool {
    let r = referring_ranges(g, set)[k];
    let range = g.ranges[r.range_id];
    let target = lsif_index::target_of(g, root, symbols, set);
    &&& 0 <= k < referring_ranges(g, set).len()
    &&& target is Some
    &&& stands_on(g, root, r, file, range.start_line + 1)
    &&& !(symbols[target->0].file_path@ == file && symbols[target->0].start_line == range.start_line
        + 1)
    &&& range.start_line == range.end_line
}

/// Whether some range makes a file one whose source is read.
pub open spec fn is_source(
    g: LsifView,
    root: Seq<char>,
    symbols: Seq<CodeSymbol>,
    file: Seq<char>,
) -> bool {
    exists|set: u64, k: int| #[trigger] is_read(g, root, symbols, set, k, file)
}

proof fn lemma_source_needed(
    g: LsifView,
    root: Seq<char>,
    symbols: Seq<CodeSymbol>,
    r: ReferenceView,
    set: u64,
    k: int,
    file: Seq<char>,
)
    requires
        is_reference(r, g, root, symbols, set, k),
    ensures
        lsif_index::source_needed(g, root, symbols, r) == Some(file) <==> is_read(
            g,
            root,
            symbols,
            set,
            k,
            file,
        ),
{
    lemma_location(g, root, r.range);
    if is_read(g, root, symbols, set, k, file) {
        let line = g.ranges[r.range.range_id].start_line + 1;
        assert(lsif_index::location(g, root, r.range) == Some((file, line as nat)));
    }
}

proof fn lemma_sources_needed(
    g: LsifView,
    root: Seq<char>,
    symbols: Seq<CodeSymbol>,
    references: Seq<ReferenceView>,
    file: Seq<char>,
)
    ensures
        lsif_index::sources_needed(g, root, symbols, references).contains(file) <==> exists|i: int|
            0 <= i < references.len() && lsif_index::source_needed(
                g,
                root,
                symbols,
                #[trigger] references[i],
            ) == Some(file),
    decreases references.len(),
{
    if references.len() > 0 {
        let front = references.drop_last();
        lemma_sources_needed(g, root, symbols, front, file);
        assert(references[references.len() - 1] == references.last());
        if exists|i: int|
            0 <= i < front.len() && lsif_index::source_needed(
                g,
                root,
                symbols,
                #[trigger] front[i],
            ) == Some(file) {
            let i = choose|i: int|
                0 <= i < front.len() && lsif_index::source_needed(
                    g,
                    root,
                    symbols,
                    #[trigger] front[i],
                ) == Some(file);
            assert(references[i] == front[i]);
        }
        if exists|i: int|
            0 <= i < references.len() && lsif_index::source_needed(
                g,
                root,
                symbols,
                #[trigger] references[i],
            ) == Some(file) {
            let i = choose|i: int|
                0 <= i < references.len() && lsif_index::source_needed(
                    g,
                    root,
                    symbols,
                    #[trigger] references[i],
                ) == Some(file);
            if i < front.len() {
                assert(front[i] == references[i]);
            }
        }
    }
}

/// An import needs the source of a file exactly where a range in it may be a call.
pub proof fn sources_are_needed_where_calls_may_be(
    g: LsifView,
    root: Seq<char>,
    symbols: Seq<CodeSymbol>,
    file: Seq<char>,
)
    requires
        g.result_references.dom().finite(),
    ensures
        lsif_index::sources_needed(
            g,
            root,
            symbols,
            lsif_index::references_of(g, root, symbols),
        ).contains(file) <==> is_source(g, root, symbols, file),
{
    let all = lsif_index::references_of(g, root, symbols);
    lemma_all_references(g, root, symbols);
    lemma_sources_needed(g, root, symbols, all, file);
    if lsif_index::sources_needed(g, root, symbols, all).contains(file) {
        let i = choose|i: int|
            0 <= i < all.len() && lsif_index::source_needed(
                g,
                root,
                symbols,
                #[trigger] all[i],
            ) == Some(file);
        assert(is_some_reference(all[i], g, root, symbols));
        let (set, k) = choose|set: u64, k: int| #[trigger]
            is_reference(all[i], g, root, symbols, set, k);
        lemma_source_needed(g, root, symbols, all[i], set, k, file);
        assert(is_read(g, root, symbols, set, k, file));
    }
    if is_source(g, root, symbols, file) {
        let (set, k) = choose|set: u64, k: int| #[trigger]
            is_read(g, root, symbols, set, k, file);
        lemma_target_in_range(g, root, symbols, set);
        let target = lsif_index::target_of(g, root, symbols, set)->0;
        let r = ReferenceView {
            symbol: target,
            name: reference_name(g, set, symbols[target]),
            range: referring_ranges(g, set)[k],
        };
        assert(is_reference(r, g, root, symbols, set, k));
        lemma_source_needed(g, root, symbols, r, set, k, file);
        assert(all.contains(r));
        let i = choose|i: int| 0 <= i < all.len() && all[i] == r;
        assert(lsif_index::source_needed(g, root, symbols, all[i]) == Some(file));
    }
}

/// An import stops short only where a source that it needs is not there, and names it.
pub proof fn imports_stop_at_a_missing_source(
    g: LsifView,
    root: Seq<char>,
    project_id: Seq<char>,
    symbols: Seq<CodeSymbol>,
    sources: Map<Seq<char>, Seq<Seq<char>>>,
)
    requires
        g.result_references.dom().finite(),
        lsif_index::import_of(g, root, project_id, symbols, sources).failure is Some,
    ensures
        exists|file: Seq<char>| #[trigger]
            is_source(g, root, symbols, file) && !sources.dom().contains(file)
                && lsif_index::import_of(g, root, project_id, symbols, sources).failure == Some(
                "failed to read source "@ + file_paths::joined_path(root, file),
            ),
{
    let all = lsif_index::references_of(g, root, symbols);
    let file = lemma_failure(g, root, project_id, symbols, sources, all);
    lemma_sources_needed(g, root, symbols, all, file);
    sources_are_needed_where_calls_may_be(g, root, symbols, file);
}

proof fn lemma_failure(
    g: LsifView,
    root: Seq<char>,
    project_id: Seq<char>,
    symbols: Seq<CodeSymbol>,
    sources: Map<Seq<char>, Seq<Seq<char>>>,
    references: Seq<ReferenceView>,
) -> (file: Seq<char>)
    requires
        lsif_index::with_references(
            g,
            root,
            project_id,
            symbols,
            sources,
            references,
        ).failure is Some,
    ensures
        exists|i: int|
            0 <= i < references.len() && lsif_index::source_needed(
                g,
                root,
                symbols,
                #[trigger] references[i],
            ) == Some(file),
        !sources.dom().contains(file),
        lsif_index::with_references(g, root, project_id, symbols, sources, references).failure
            == Some("failed to read source "@ + file_paths::joined_path(root, file)),
    decreases references.len(),
{
    let front = references.drop_last();
    let before = lsif_index::with_references(g, root, project_id, symbols, sources, front);
    if before.failure is Some {
        let file = lemma_failure(g, root, project_id, symbols, sources, front);
        let i = choose|i: int|
            0 <= i < front.len() && lsif_index::source_needed(
                g,
                root,
                symbols,
                #[trigger] front[i],
            ) == Some(file);
        assert(references[i] == front[i]);
        file
    } else {
        let r = references.last();
        let (file, from) = lsif_index::reference_place(g, root, symbols, r)->0;
        assert(references[references.len() - 1] == r);
        assert(lsif_index::source_needed(g, root, symbols, r) == Some(file));
        file
    }
}

/// A dump is read line by line: a blank line says nothing, and one that cannot be read is refused
/// with its number, counted from one.
pub proof fn dumps_are_read_line_by_line(
    lines: Seq<Seq<char>>,
    line: Seq<char>,
    before: LsifView,
)
    requires
        lsif_graph::lsif_of_lines(lines, lines.len()) == Ok::<LsifView, Seq<char>>(before),
    ensures
        ({
            let all = lines.push(line);
            let after = lsif_graph::lsif_of_lines(all, all.len());
            let read = json::json_of_text(text::trimmed(line));
            &&& text::trimmed(line).len() == 0 ==> after == Ok::<LsifView, Seq<char>>(before)
            &&& text::trimmed(line).len() > 0 && read is Ok ==> after == lsif_graph::with_record(
                before,
                read->Ok_0,
            )
            &&& text::trimmed(line).len() > 0 && read is Err ==> after == Err::<
                LsifView,
                Seq<char>,
            >(
                "failed to parse LSIF JSON line "@ + text::decimal_text(lines.len() + 1) + ": "@
                    + read->Err_0,
            )
        }),
{
    lemma_lines(lines, line, lines.len());
}

proof fn lemma_lines(lines: Seq<Seq<char>>, line: Seq<char>, n: nat)
    requires
        n <= lines.len(),
    ensures
        lsif_graph::lsif_of_lines(lines.push(line), n) == lsif_graph::lsif_of_lines(lines, n),
    decreases n,
{
    if n > 0 {
        lemma_lines(lines, line, (n - 1) as nat);
        assert(lines.push(line)[n - 1] == lines[n - 1]);
    }
}

// ---------------------------------------------------------------------------
// Records of a dump
// ---------------------------------------------------------------------------

/// A record of a document tells where it is, one of a range its lines and where it ends, and one of
/// a moniker what it names; nothing else changes.
pub proof fn vertices_are_kept_under_their_id(g: LsifView, value: JsonView, id: u64)
    requires
        value.text_field("type"@) == Some("vertex"@),
        value.number_field("id"@) == Some(id),
    ensures
        value.text_field("label"@) == Some("document"@) ==> (value.text_field("uri"@) matches Some(
            uri,
        ) ==> lsif_graph::with_record(g, value) == Ok::<LsifView, Seq<char>>(
            (LsifView { documents: g.documents.insert(id, uri), ..g }),
        )),
        value.text_field("label"@) == Some("moniker"@) ==> (value.text_field(
            "identifier"@,
        ) matches Some(identifier) ==> lsif_graph::with_record(g, value) == Ok::<
            LsifView,
            Seq<char>,
        >((LsifView { monikers: g.monikers.insert(id, identifier), ..g }))),
        value.text_field("label"@) == Some("range"@) && value.field("start"@) is Some
            && value.field("end"@) is Some ==> {
            let from = value.field("start"@)->0.number_field("line"@);
            let to = value.field("end"@)->0.number_field("line"@);
            let character = value.field("end"@)->0.number_field("character"@);
            from is Some && to is Some && character is Some ==> lsif_graph::with_record(g, value)
                == Ok::<LsifView, Seq<char>>(
                (LsifView {
                    ranges: g.ranges.insert(
                        id,
                        LsifRange {
                            start_line: from->0 as u32,
                            end_line: to->0 as u32,
                            end_character: character->0 as u32,
                        },
                    ),
                    ..g
                }),
            )
        },
{
    lemma_labels_differ();
}

proof fn lemma_labels_differ()
    ensures
        "vertex"@ != "edge"@,
        "document"@ != "range"@,
        "document"@ != "moniker"@,
        "range"@ != "moniker"@,
        "contains"@ != "item"@,
        "contains"@ != "next"@,
        "contains"@ != "textDocument/definition"@,
        "contains"@ != "textDocument/references"@,
        "contains"@ != "moniker"@,
        "item"@ != "next"@,
        "item"@ != "textDocument/definition"@,
        "item"@ != "textDocument/references"@,
        "item"@ != "moniker"@,
        "next"@ != "textDocument/definition"@,
        "next"@ != "textDocument/references"@,
        "next"@ != "moniker"@,
        "textDocument/definition"@ != "textDocument/references"@,
        "textDocument/definition"@ != "moniker"@,
        "textDocument/references"@ != "moniker"@,
        "references"@ != "definitions"@,
{
    reveal_strlit("vertex");
    reveal_strlit("edge");
    reveal_strlit("document");
    reveal_strlit("range");
    reveal_strlit("moniker");
    reveal_strlit("contains");
    reveal_strlit("item");
    reveal_strlit("next");
    reveal_strlit("textDocument/definition");
    reveal_strlit("textDocument/references");
    reveal_strlit("references");
    reveal_strlit("definitions");
    assert("vertex"@.len() == 6 && "edge"@.len() == 4);
    assert("document"@.len() == 8 && "range"@.len() == 5 && "moniker"@.len() == 7);
    assert("contains"@.len() == 8 && "item"@.len() == 4 && "next"@.len() == 4);
    assert("item"@[0] == 'i' && "next"@[0] == 'n');
    assert("textDocument/definition"@.len() == 23);
    assert("textDocument/references"@.len() == 23);
    assert("textDocument/definition"@[13] == 'd');
    assert("textDocument/references"@[13] == 'r');
    assert("references"@.len() == 10 && "definitions"@.len() == 11);
}

/// A record of an edge from one to one leads from what it goes out of to what it goes into:
/// from a range to its result set, and from a result set to its definitions, its references and
/// its moniker. Nothing else changes.
pub proof fn edges_lead_out_and_in(g: LsifView, value: JsonView, out: u64, into: u64)
    requires
        value.text_field("type"@) == Some("edge"@),
        value.number_field("outV"@) == Some(out),
        value.number_field("inV"@) == Some(into),
    ensures
        value.text_field("label"@) == Some("next"@) ==> lsif_graph::with_record(g, value) == Ok::<
            LsifView,
            Seq<char>,
        >((LsifView { range_result_sets: g.range_result_sets.insert(out, into), ..g })),
        value.text_field("label"@) == Some("textDocument/definition"@) ==> lsif_graph::with_record(
            g,
            value,
        ) == Ok::<LsifView, Seq<char>>(
            (LsifView { result_definitions: g.result_definitions.insert(out, into), ..g }),
        ),
        value.text_field("label"@) == Some("textDocument/references"@) ==> lsif_graph::with_record(
            g,
            value,
        ) == Ok::<LsifView, Seq<char>>(
            (LsifView { result_references: g.result_references.insert(out, into), ..g }),
        ),
        value.text_field("label"@) == Some("moniker"@) ==> lsif_graph::with_record(g, value)
            == Ok::<LsifView, Seq<char>>(
            (LsifView { result_monikers: g.result_monikers.insert(out, into), ..g }),
        ),
{
    lemma_labels_differ();
}

proof fn lemma_with_all(m: Map<u64, u64>, keys: Seq<u64>, value: u64, k: u64)
    ensures
        ({
            let all = lsif_graph::with_all(m, keys, value);
            &&& keys.contains(k) ==> all.dom().contains(k) && all[k] == value
            &&& !keys.contains(k) ==> (all.dom().contains(k) <==> m.dom().contains(k)) && (
            m.dom().contains(k) ==> all[k] == m[k])
        }),
    decreases keys.len(),
{
    if keys.len() > 0 {
        let front = keys.drop_last();
        lemma_with_all(m, front, value, k);
        assert(keys.contains(k) <==> front.contains(k) || k == keys.last()) by {
            if front.contains(k) {
                let i = choose|i: int| 0 <= i < front.len() && front[i] == k;
                assert(keys[i] == k);
            }
            if k == keys.last() {
                assert(keys[keys.len() - 1] == k);
            }
            if keys.contains(k) && k != keys.last() {
                let i = choose|i: int| 0 <= i < keys.len() && keys[i] == k;
                assert(front[i] == k);
            }
        }
    }
}

/// A document contains the ranges that a record lists for it, and the rest stand where they stood.
pub proof fn contained_ranges_stand_in_their_document(
    g: LsifView,
    value: JsonView,
    document: u64,
    listed: Seq<JsonView>,
    after: LsifView,
)
    requires
        value.text_field("type"@) == Some("edge"@),
        value.text_field("label"@) == Some("contains"@),
        value.number_field("outV"@) == Some(document),
        value.values_field("inVs"@) == Some(listed),
        lsif_graph::with_record(g, value) == Ok::<LsifView, Seq<char>>(after),
    ensures
        after == (LsifView { range_documents: after.range_documents, ..g }),
        forall|i: int|
            0 <= i < listed.len() ==> (#[trigger] listed[i]).number() is Some
                && after.range_documents.contains_pair(listed[i].number()->0, document),
        forall|id: u64|
            (forall|i: int| 0 <= i < listed.len() ==> (#[trigger] listed[i]).number() != Some(id))
                ==> (#[trigger] after.range_documents.dom().contains(id)
                <==> g.range_documents.dom().contains(id)) && (g.range_documents.dom().contains(id)
                ==> after.range_documents[id] == g.range_documents[id]),
{
    lemma_labels_differ();
    let ids = listed.map_values(|v: JsonView| v.number()->0);
    assert forall|i: int| 0 <= i < listed.len() implies (#[trigger] listed[i]).number() is Some
        && after.range_documents.contains_pair(listed[i].number()->0, document) by {
        assert(ids[i] == listed[i].number()->0);
        assert(ids.contains(ids[i]));
        lemma_with_all(g.range_documents, ids, document, ids[i]);
        assert(after.range_documents.dom().contains(ids[i]));
    }
    assert forall|id: u64|
        (forall|i: int|
            0 <= i < listed.len() ==> (#[trigger] listed[i]).number() != Some(
                id,
            )) implies (#[trigger] after.range_documents.dom().contains(id)
        <==> g.range_documents.dom().contains(id)) && (g.range_documents.dom().contains(id)
        ==> after.range_documents[id] == g.range_documents[id]) by {
        lemma_with_all(g.range_documents, ids, document, id);
        assert(!ids.contains(id)) by {
            if ids.contains(id) {
                let i = choose|i: int| 0 <= i < ids.len() && ids[i] == id;
                assert(listed[i].number() is Some);
                assert(listed[i].number() == Some(id));
            }
        }
    }
}

/// A record of items adds the ranges that it lists, with the document that it names, behind the
/// references of a result, or behind its definitions where it says so or does not say.
pub proof fn items_are_added_to_their_result(
    g: LsifView,
    value: JsonView,
    result: u64,
    document: u64,
    listed: Seq<JsonView>,
    after: LsifView,
)
    requires
        value.text_field("type"@) == Some("edge"@),
        value.text_field("label"@) == Some("item"@),
        value.number_field("outV"@) == Some(result),
        value.number_field("document"@) == Some(document),
        value.values_field("inVs"@) == Some(listed),
        lsif_graph::with_record(g, value) == Ok::<LsifView, Seq<char>>(after),
    ensures
        ({
            let before = if g.items.dom().contains(result) {
                g.items[result]
            } else {
                ItemsView { definitions: Seq::empty(), references: Seq::empty() }
            };
            let added = Seq::new(
                listed.len(),
                |i: int| RangeRef { document_id: document, range_id: listed[i].number()->0 },
            );
            let property = value.text_field("property"@);
            &&& after == (LsifView { items: g.items.insert(result, after.items[result]), ..g })
            &&& property == Some("references"@) ==> after.items[result] == (ItemsView {
                definitions: before.definitions,
                references: before.references + added,
            })
            &&& property == Some("definitions"@) || property is None ==> after.items[result] == (
            ItemsView {
                definitions: before.definitions + added,
                references: before.references,
            })
        }),
{
    lemma_labels_differ();
    let ids = listed.map_values(|v: JsonView| v.number()->0);
    let ranges = ids.map_values(
        |range_id: u64| RangeRef { document_id: document, range_id },
    );
    assert(ranges =~= Seq::new(
        listed.len(),
        |i: int| RangeRef { document_id: document, range_id: listed[i].number()->0 },
    ));
}

} // verus!
