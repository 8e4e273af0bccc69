//! Code relations out of a code intelligence dump: which symbol refers to which, and which of
//! these references are calls.
use vstd::prelude::*;
use vstd::string::*;
use crate::digest::blake3_hex;
use crate::file_paths::join_path;
use crate::lsif_graph::{parse_lsif, LsifGraph, LsifRange, LsifView, RangeRef};
use crate::order::{OrderedMap, TextSet};
use crate::records::{CodeRelation, CodeSymbol, RelationView};
use crate::text::{
    cat2,
    cat6,
    char_is_space,
    chars_of,
    copy_opt,
    decimal,
    lines_of,
    owned,
    same_text,
    text_of,
};
use crate::uris::uri_to_relative_path;
use crate::{digest, file_paths, lsif_graph, order, text, uris};

verus! {

// ---------------------------------------------------------------------------
// Names
// ---------------------------------------------------------------------------

/// Where the last `::` of a text stands.
pub open spec fn last_separator(s: Seq<char>) -> Option<int>
    decreases s.len(),
{
    if s.len() < 2 {
        None
    } else if s[s.len() - 2] == ':' && s[s.len() - 1] == ':' {
        Some(s.len() - 2)
    } else {
        last_separator(s.drop_last())
    }
}

/// Whether a segment of an identifier names something.
pub open spec fn is_name(s: Seq<char>) -> bool {
    s != "impl"@ && s != "crate"@
}

proof fn lemma_last_separator(s: Seq<char>)
    ensures
        last_separator(s) matches Some(i) ==> 0 <= i <= s.len() - 2,
    decreases s.len(),
{
    if s.len() >= 2 {
        lemma_last_separator(s.drop_last());
    }
}

/// The last of the segments that `::` parts in an identifier that names something.
pub open spec fn last_name(s: Seq<char>) -> Option<Seq<char>>
    decreases s.len(),
    via last_name_decreases
{
    match last_separator(s) {
        None => if is_name(s) {
            Some(s)
        } else {
            None
        },
        Some(i) => if is_name(s.skip(i + 2)) {
            Some(s.skip(i + 2))
        } else {
            last_name(s.take(i))
        },
    }
}

#[via_fn]
proof fn last_name_decreases(s: Seq<char>) {
    lemma_last_separator(s);
}

/// Where the last `::` of the first characters stands.
fn last_separator_of(c: &Vec<char>, len: usize) -> (r: Option<usize>)
    requires
        len <= c.len(),
    ensures
        match r {
            Some(i) => i + 2 <= len && last_separator(c@.take(len as int)) == Some(i as int),
            None => last_separator(c@.take(len as int)) is None,
        },
{
    let mut k: usize = len;
    while k >= 2
        invariant
            k <= len <= c.len(),
            last_separator(c@.take(k as int)) == last_separator(c@.take(len as int)),
        decreases k,
    {
        let ghost s = c@.take(k as int);
        if c[k - 2] == ':' && c[k - 1] == ':' {
            assert(s[s.len() - 2] == ':' && s[s.len() - 1] == ':');
            return Some(k - 2);
        }
        assert(s.drop_last() =~= c@.take(k - 1));
        k -= 1;
    }
    None
}

/// The last segment of an identifier that names something.
pub fn last_identifier_segment(identifier: &str) -> (r: Option<String>)
    ensures
        text::opt_text(r) == last_name(identifier@),
{
    let c = chars_of(identifier);
    let mut end: usize = c.len();
    assert(c@.take(c@.len() as int) =~= c@);
    loop
        invariant
            c@ == identifier@,
            end <= c.len(),
            last_name(c@.take(end as int)) == last_name(identifier@),
        decreases end,
    {
        let ghost s = c@.take(end as int);
        match last_separator_of(&c, end) {
            None => {
                let part = text_of(&c, 0, end);
                assert(part@ =~= s);
                if same_text(part.as_str(), "impl") || same_text(part.as_str(), "crate") {
                    return None;
                }
                return Some(part);
            },
            Some(i) => {
                let part = text_of(&c, i + 2, end);
                assert(part@ =~= s.skip(i + 2));
                if !(same_text(part.as_str(), "impl") || same_text(part.as_str(), "crate")) {
                    return Some(part);
                }
                assert(s.take(i as int) =~= c@.take(i as int));
                end = i;
            },
        }
    }
}

// ---------------------------------------------------------------------------
// Symbols
// ---------------------------------------------------------------------------

/// Whether a symbol stands in a file over a line, and has the name that is asked for.
pub open spec fn stands_over(
    s: CodeSymbol,
    file: Seq<char>,
    line: nat,
    name: Option<Seq<char>>,
) -> bool {
    &&& s.file_path@ == file
    &&& s.start_line <= line <= s.end_line
    &&& name matches Some(wanted) ==> s.name@ == wanted
}

/// Whether a symbol spans fewer lines than another, or as many and starts before it.
pub open spec fn narrower(a: CodeSymbol, b: CodeSymbol) -> bool {
    ||| a.end_line - a.start_line < b.end_line - b.start_line
    ||| a.end_line - a.start_line == b.end_line - b.start_line && a.start_line < b.start_line
}

/// The first of the narrowest symbols that stand over a line, among the first `n`.
pub open spec fn narrowest(
    symbols: Seq<CodeSymbol>,
    file: Seq<char>,
    line: nat,
    name: Option<Seq<char>>,
    n: nat,
) -> Option<int>
    decreases n,
{
    if n == 0 {
        None
    } else {
        let best = narrowest(symbols, file, line, name, (n - 1) as nat);
        let s = symbols[n - 1];
        if !stands_over(s, file, line, name) {
            best
        } else {
            match best {
                None => Some(n - 1),
                Some(i) => if narrower(s, symbols[i]) {
                    Some(n - 1)
                } else {
                    best
                },
            }
        }
    }
}

/// The symbol over a line.
pub open spec fn symbol_over(
    symbols: Seq<CodeSymbol>,
    file: Seq<char>,
    line: nat,
    name: Option<Seq<char>>,
) -> Option<int> {
    narrowest(symbols, file, line, name, symbols.len())
}

/// The symbol over a line stands over it, none that does is narrower, and those before it are all
/// wider; where there is none, no symbol stands over the line.
pub proof fn symbol_over_is_narrowest(
    symbols: Seq<CodeSymbol>,
    file: Seq<char>,
    line: nat,
    name: Option<Seq<char>>,
    n: nat,
)
    requires
        n <= symbols.len(),
    ensures
        match narrowest(symbols, file, line, name, n) {
            None => forall|j: int|
                0 <= j < n ==> !stands_over(#[trigger] symbols[j], file, line, name),
            Some(i) => {
                &&& 0 <= i < n
                &&& stands_over(symbols[i], file, line, name)
                &&& forall|j: int|
                    0 <= j < n && stands_over(#[trigger] symbols[j], file, line, name) ==> {
                        &&& !narrower(symbols[j], symbols[i])
                        &&& j < i ==> narrower(symbols[i], symbols[j])
                    }
            },
        },
    decreases n,
{
    if n > 0 {
        symbol_over_is_narrowest(symbols, file, line, name, (n - 1) as nat);
    }
}

/// Places in a list.
#[derive(Debug)]
pub struct Places {
    pub at: Vec<usize>,
}

impl View for Places {
    type V = Seq<usize>;

    open spec fn view(&self) -> Seq<usize> {
        self.at@
    }
}

/// Whether a map holds, for each file, the places of its symbols among the first `n`.
pub open spec fn indexes(m: Map<Seq<char>, Seq<usize>>, symbols: Seq<CodeSymbol>, n: int) -> bool {
    &&& forall|f: Seq<char>| #[trigger]
        m.dom().contains(f) ==> places_of(m[f], symbols, f, n)
    &&& forall|j: int|
        0 <= j < n ==> m.dom().contains((#[trigger] symbols[j]).file_path@)
}

/// Whether these are the places of the symbols of a file among the first `n`, in their order.
pub open spec fn places_of(
    places: Seq<usize>,
    symbols: Seq<CodeSymbol>,
    file: Seq<char>,
    n: int,
) -> bool {
    &&& forall|k: int| 0 <= k < places.len() ==> (#[trigger] places[k]) < n
    &&& forall|k: int, l: int|
        0 <= k < l < places.len() ==> (#[trigger] places[k]) < (#[trigger] places[l])
    &&& forall|j: int|
        0 <= j < n && (#[trigger] symbols[j]).file_path@ == file ==> places.contains(j as usize)
}

/// The places of the symbols of each file.
fn symbols_by_file(symbols: &Vec<CodeSymbol>) -> (r: OrderedMap<String, Places>)
    ensures
        r.wf(),
        indexes(r@, symbols@, symbols@.len() as int),
{
    let mut r: OrderedMap<String, Places> = OrderedMap::new();
    let mut i: usize = 0;
    while i < symbols.len()
        invariant
            i <= symbols.len(),
            r.wf(),
            indexes(r@, symbols@, i as int),
        decreases symbols.len() - i,
    {
        let ghost before = r@;
        let file = owned(symbols[i].file_path.as_str());
        let mut places = match r.get(&file) {
            Some(places) => Places { at: places.at.clone() },
            None => Places { at: Vec::new() },
        };
        let ghost old_places = places@;
        places.at.push(i);
        let ghost now = places@;
        r.insert(file, places);
        i += 1;
        proof {
            let f = file@;
            assert forall|g: Seq<char>| #[trigger] r@.dom().contains(g) implies places_of(
                r@[g],
                symbols@,
                g,
                i as int,
            ) by {
                if g == f {
                    assert(r@[g] == now);
                    assert forall|j: int| 0 <= j < i && (#[trigger] symbols@[j]).file_path@ == g
                        implies now.contains(j as usize) by {
                        if j == i - 1 {
                            assert(now[now.len() - 1] == j as usize);
                        } else {
                            assert(before.dom().contains(g));
                            assert(old_places.contains(j as usize));
                            let k = old_places.index_of(j as usize);
                            assert(now[k] == j as usize);
                        }
                    }
                } else {
                    assert(before.dom().contains(g));
                    assert(places_of(before[g], symbols@, g, i - 1));
                }
            }
        }
    }
    r
}

proof fn lemma_narrowest_skips(
    symbols: Seq<CodeSymbol>,
    file: Seq<char>,
    line: nat,
    name: Option<Seq<char>>,
    a: nat,
    b: nat,
)
    requires
        a <= b <= symbols.len(),
        forall|j: int| a <= j < b ==> (#[trigger] symbols[j]).file_path@ != file,
    ensures
        narrowest(symbols, file, line, name, b) == narrowest(symbols, file, line, name, a),
    decreases b,
{
    if a < b {
        assert(symbols[b - 1].file_path@ != file);
        lemma_narrowest_skips(symbols, file, line, name, a, (b - 1) as nat);
    }
}

/// Whether a symbol has the name that is asked for.
fn has_name(s: &CodeSymbol, name: &Option<String>) -> (r: bool)
    ensures
        r == (text::opt_text(*name) matches Some(wanted) ==> s.name@ == wanted),
{
    match name {
        Some(wanted) => same_text(s.name.as_str(), wanted.as_str()),
        None => true,
    }
}

/// The symbol over a line, found through the places of the symbols of each file.
fn smallest_symbol_span(
    symbols: &Vec<CodeSymbol>,
    by_file: &OrderedMap<String, Places>,
    file: &String,
    line: u32,
    name: &Option<String>,
) -> (r: Option<usize>)
    requires
        by_file.wf(),
        indexes(by_file@, symbols@, symbols@.len() as int),
    ensures
        match r {
            Some(i) => i < symbols.len() && symbol_over(
                symbols@,
                file@,
                line as nat,
                text::opt_text(*name),
            ) == Some(i as int),
            None => symbol_over(symbols@, file@, line as nat, text::opt_text(*name)) is None,
        },
{
    let ghost wanted = text::opt_text(*name);
    let places = match by_file.get(file) {
        Some(places) => places,
        None => {
            proof {
                lemma_narrowest_skips(
                    symbols@,
                    file@,
                    line as nat,
                    wanted,
                    0,
                    symbols@.len(),
                );
            }
            return None;
        },
    };
    let mut best: Option<usize> = None;
    let mut k: usize = 0;
    let ghost mut done: nat = 0;
    while k < places.at.len()
        invariant
            k <= places.at.len(),
            wanted == text::opt_text(*name),
            places_of(places@, symbols@, file@, symbols@.len() as int),
            done <= symbols.len(),
            k > 0 ==> done == places@[k - 1] + 1,
            k == 0 ==> done == 0,
            match best {
                Some(i) => i < done && narrowest(
                    symbols@,
                    file@,
                    line as nat,
                    wanted,
                    done,
                ) == Some(i as int) && symbols@[i as int].start_line <= symbols@[i as int].end_line,
                None => narrowest(symbols@, file@, line as nat, wanted, done) is None,
            },
        decreases places.at.len() - k,
    {
        let at: usize = places.at[k];
        assert(places@[k as int] == at);
        proof {
            assert forall|j: int| done <= j < at implies (#[trigger] symbols@[j]).file_path@
                != file@ by {
                if symbols@[j].file_path@ == file@ {
                    assert(places@.contains(j as usize));
                    let l = places@.index_of(j as usize);
                    assert(places@[l] == j);
                    if l < k {
                        if l < k - 1 {
                            assert(places@[l] < places@[k - 1]);
                        }
                    } else if l > k {
                        assert(places@[k as int] < places@[l]);
                    }
                }
            }
            lemma_narrowest_skips(symbols@, file@, line as nat, wanted, done, at as nat);
        }
        let s = &symbols[at];
        if same_text(s.file_path.as_str(), file.as_str()) && s.start_line <= line && line
            <= s.end_line && has_name(s, name) {
            let better = match best {
                None => true,
                Some(i) => {
                    let b = &symbols[i];
                    let span: u32 = s.end_line - s.start_line;
                    let best_span: u32 = b.end_line - b.start_line;
                    span < best_span || (span == best_span && s.start_line < b.start_line)
                },
            };
            if better {
                best = Some(at);
            }
        }
        proof {
            done = (at + 1) as nat;
        }
        k += 1;
    }
    proof {
        assert forall|j: int| done <= j < symbols@.len() implies (
        #[trigger] symbols@[j]).file_path@ != file@ by {
            if symbols@[j].file_path@ == file@ {
                assert(places@.contains(j as usize));
                let l = places@.index_of(j as usize);
                assert(places@[l] == j);
                if l < k - 1 {
                    assert(places@[l] < places@[k - 1]);
                }
            }
        }
        lemma_narrowest_skips(symbols@, file@, line as nat, wanted, done, symbols@.len());
    }
    best
}

// ---------------------------------------------------------------------------
// Locations
// ---------------------------------------------------------------------------

/// The document that a range stands in.
pub open spec fn document_of(g: LsifView, r: RangeRef) -> u64 {
    if g.range_documents.dom().contains(r.range_id) {
        g.range_documents[r.range_id]
    } else {
        r.document_id
    }
}

/// The file below the root that a range stands in and the line that it starts on, counted from
/// one.
pub open spec fn location(g: LsifView, root: Seq<char>, r: RangeRef) -> Option<(Seq<char>, nat)> {
    let document = document_of(g, r);
    if g.documents.dom().contains(document) && g.ranges.dom().contains(r.range_id) {
        match uris::relative_path_of(g.documents[document], root) {
            Some(file) => Some((file, (g.ranges[r.range_id].start_line + 1) as nat)),
            None => None,
        }
    } else {
        None
    }
}

/// Whether the lines of all ranges can be counted from one.
pub open spec fn lines_fit(g: LsifView) -> bool {
    forall|id: u64| #[trigger]
        g.ranges.dom().contains(id) ==> g.ranges[id].start_line < u32::MAX
}

/// The file below the root that a range stands in and the line that it starts on.
fn range_location(graph: &LsifGraph, root_path: &str, range_ref: &RangeRef) -> (r: Option<
    (String, u32),
>)
    requires
        graph.wf(),
        lines_fit(graph@),
    ensures
        match r {
            Some((file, line)) => location(graph@, root_path@, *range_ref) == Some(
                (file@, line as nat),
            ),
            None => location(graph@, root_path@, *range_ref) is None,
        },
{
    let document: u64 = match graph.range_documents.get(&range_ref.range_id) {
        Some(document) => *document,
        None => range_ref.document_id,
    };
    let uri = match graph.documents.get(&document) {
        Some(uri) => uri,
        None => return None,
    };
    let range = match graph.ranges.get(&range_ref.range_id) {
        Some(range) => range,
        None => return None,
    };
    match uri_to_relative_path(uri.as_str(), root_path) {
        Some(file) => Some((file, range.start_line + 1)),
        None => None,
    }
}

// ---------------------------------------------------------------------------
// Targets
// ---------------------------------------------------------------------------

/// The moniker of a result set.
pub open spec fn moniker_of(g: LsifView, set: u64) -> Option<Seq<char>> {
    if g.result_monikers.dom().contains(set) && g.monikers.dom().contains(
        g.result_monikers[set],
    ) {
        Some(g.monikers[g.result_monikers[set]])
    } else {
        None
    }
}

/// The name that the moniker of a result set ends with.
pub open spec fn name_hint(g: LsifView, set: u64) -> Option<Seq<char>> {
    match moniker_of(g, set) {
        Some(moniker) => last_name(moniker),
        None => None,
    }
}

/// The symbol over the start of a range.
pub open spec fn symbol_at(
    g: LsifView,
    root: Seq<char>,
    symbols: Seq<CodeSymbol>,
    r: RangeRef,
    name: Option<Seq<char>>,
) -> Option<int> {
    match location(g, root, r) {
        Some((file, line)) => symbol_over(symbols, file, line, name),
        None => None,
    }
}

/// The first range from a place on that a symbol stands over: its place, and the symbol.
pub open spec fn first_defined(
    g: LsifView,
    root: Seq<char>,
    symbols: Seq<CodeSymbol>,
    ranges: Seq<RangeRef>,
    name: Option<Seq<char>>,
    at: int,
) -> Option<(int, int)>
    decreases ranges.len() - at,
{
    if at < 0 || at >= ranges.len() {
        None
    } else {
        match symbol_at(g, root, symbols, ranges[at], name) {
            Some(symbol) => Some((at, symbol)),
            None => first_defined(g, root, symbols, ranges, name, at + 1),
        }
    }
}

/// The ranges that define what a result set stands for.
pub open spec fn definitions_of(g: LsifView, set: u64) -> Seq<RangeRef> {
    if g.result_definitions.dom().contains(set) {
        lsif_graph::items_at(g, g.result_definitions[set]).definitions
    } else {
        Seq::empty()
    }
}

/// The symbol that a result set stands for.
pub open spec fn target_of(
    g: LsifView,
    root: Seq<char>,
    symbols: Seq<CodeSymbol>,
    set: u64,
) -> Option<int> {
    match first_defined(g, root, symbols, definitions_of(g, set), name_hint(g, set), 0) {
        Some((_, symbol)) => Some(symbol),
        None => None,
    }
}

/// How many ranges are looked at to find the symbol that a result set stands for.
pub open spec fn definitions_looked_at(
    g: LsifView,
    root: Seq<char>,
    symbols: Seq<CodeSymbol>,
    set: u64,
) -> nat {
    let ranges = definitions_of(g, set);
    match first_defined(g, root, symbols, ranges, name_hint(g, set), 0) {
        Some((at, _)) => (at + 1) as nat,
        None => ranges.len(),
    }
}

/// A result set with the result that an edge gives it.
pub type SetEntry = (u64, u64);

/// How many ranges are looked at for the first result sets.
pub open spec fn definitions_seen(
    g: LsifView,
    root: Seq<char>,
    symbols: Seq<CodeSymbol>,
    sets: Seq<SetEntry>,
) -> nat
    decreases sets.len(),
{
    if sets.len() == 0 {
        0
    } else {
        definitions_seen(g, root, symbols, sets.drop_last()) + definitions_looked_at(
            g,
            root,
            symbols,
            sets.last().0,
        )
    }
}

/// How many of the first result sets stand for a symbol.
pub open spec fn targets_resolved(
    g: LsifView,
    root: Seq<char>,
    symbols: Seq<CodeSymbol>,
    sets: Seq<SetEntry>,
) -> nat
    decreases sets.len(),
{
    if sets.len() == 0 {
        0
    } else {
        targets_resolved(g, root, symbols, sets.drop_last()) + (if target_of(
            g,
            root,
            symbols,
            sets.last().0,
        ) is Some {
            1nat
        } else {
            0
        })
    }
}

/// How many ranges define what result sets stand for.
pub open spec fn definition_total(g: LsifView, sets: Seq<SetEntry>) -> nat
    decreases sets.len(),
{
    if sets.len() == 0 {
        0
    } else {
        definition_total(g, sets.drop_last()) + definitions_of(g, sets.last().0).len()
    }
}

/// What a machine can hold of a dump: its lines, and the number of its definitions.
pub open spec fn fits_machine(g: LsifView) -> bool {
    &&& lines_fit(g)
    &&& definition_total(g, order::sorted_entries(g.result_definitions)) <= usize::MAX
}

/// The symbol that a result set stands for, and its moniker.
#[derive(Debug)]
pub struct Target {
    pub symbol: usize,
    pub moniker: Option<String>,
}

impl View for Target {
    type V = (int, Option<Seq<char>>);

    open spec fn view(&self) -> (int, Option<Seq<char>>) {
        (self.symbol as int, text::opt_text(self.moniker))
    }
}

/// Whether a map holds the symbol and the moniker of those of the result sets that stand for one.
pub open spec fn holds_targets(
    m: Map<u64, (int, Option<Seq<char>>)>,
    g: LsifView,
    root: Seq<char>,
    symbols: Seq<CodeSymbol>,
    sets: Seq<SetEntry>,
) -> bool {
    &&& forall|set: u64| #[trigger]
        m.dom().contains(set) <==> is_among(sets, set) && target_of(g, root, symbols, set) is Some
    &&& forall|set: u64| #[trigger]
        m.dom().contains(set) ==> m[set] == (
            target_of(g, root, symbols, set)->0,
            moniker_of(g, set),
        )
}

/// Whether a result set is among entries.
pub open spec fn is_among(sets: Seq<SetEntry>, set: u64) -> bool {
    exists|i: int| 0 <= i < sets.len() && (#[trigger] sets[i]).0 == set
}

/// The first range that a symbol stands over: how many were looked at, and the symbol.
fn find_definition(
    graph: &LsifGraph,
    root_path: &str,
    symbols: &Vec<CodeSymbol>,
    by_file: &OrderedMap<String, Places>,
    ranges: &Vec<RangeRef>,
    name: &Option<String>,
) -> (r: (usize, Option<usize>))
    requires
        graph.wf(),
        lines_fit(graph@),
        by_file.wf(),
        indexes(by_file@, symbols@, symbols@.len() as int),
    ensures
        r.0 <= ranges.len(),
        match r.1 {
            Some(symbol) => symbol < symbols.len() && first_defined(
                graph@,
                root_path@,
                symbols@,
                ranges@,
                text::opt_text(*name),
                0,
            ) == Some((r.0 - 1, symbol as int)),
            None => r.0 == ranges.len() && first_defined(
                graph@,
                root_path@,
                symbols@,
                ranges@,
                text::opt_text(*name),
                0,
            ) is None,
        },
{
    let ghost wanted = text::opt_text(*name);
    let mut at: usize = 0;
    while at < ranges.len()
        invariant
            at <= ranges.len(),
            wanted == text::opt_text(*name),
            graph.wf(),
            lines_fit(graph@),
            by_file.wf(),
            indexes(by_file@, symbols@, symbols@.len() as int),
            first_defined(graph@, root_path@, symbols@, ranges@, wanted, at as int)
                == first_defined(graph@, root_path@, symbols@, ranges@, wanted, 0),
        decreases ranges.len() - at,
    {
        if let Some((file, line)) = range_location(graph, root_path, &ranges[at]) {
            if let Some(symbol) = smallest_symbol_span(symbols, by_file, &file, line, name) {
                return (at + 1, Some(symbol));
            }
        }
        at += 1;
    }
    (at, None)
}

/// The moniker of a result set.
fn find_moniker(graph: &LsifGraph, set: u64) -> (r: Option<String>)
    requires
        graph.wf(),
    ensures
        text::opt_text(r) == moniker_of(graph@, set),
{
    match graph.result_monikers.get(&set) {
        Some(id) => match graph.monikers.get(id) {
            Some(moniker) => Some(owned(moniker.as_str())),
            None => None,
        },
        None => None,
    }
}

proof fn lemma_looked_at_bound(
    g: LsifView,
    root: Seq<char>,
    symbols: Seq<CodeSymbol>,
    ranges: Seq<RangeRef>,
    name: Option<Seq<char>>,
    at: int,
)
    requires
        0 <= at,
    ensures
        first_defined(g, root, symbols, ranges, name, at) matches Some((p, _)) ==> at <= p
            < ranges.len(),
    decreases ranges.len() - at,
{
    if at < ranges.len() {
        lemma_looked_at_bound(g, root, symbols, ranges, name, at + 1);
    }
}

proof fn lemma_total_grows(g: LsifView, sets: Seq<SetEntry>, n: int)
    requires
        0 <= n <= sets.len(),
    ensures
        definition_total(g, sets.take(n)) <= definition_total(g, sets),
    decreases sets.len() - n,
{
    if n == sets.len() {
        assert(sets.take(n) =~= sets);
    } else {
        assert(sets.take(n + 1).drop_last() =~= sets.take(n));
        lemma_total_grows(g, sets, n + 1);
    }
}

/// What is known after the definitions were looked through.
struct Targets {
    by_set: OrderedMap<u64, Target>,
    seen: usize,
    resolved: usize,
}

/// Looks through the definitions for the symbols that result sets stand for.
fn find_targets(
    graph: &LsifGraph,
    root_path: &str,
    symbols: &Vec<CodeSymbol>,
    by_file: &OrderedMap<String, Places>,
) -> (r: Targets)
    requires
        graph.wf(),
        fits_machine(graph@),
        by_file.wf(),
        indexes(by_file@, symbols@, symbols@.len() as int),
    ensures
        r.by_set.wf(),
        forall|set: u64| #[trigger]
            r.by_set@.dom().contains(set) ==> r.by_set@[set].0 < symbols.len(),
        holds_targets(
            r.by_set@,
            graph@,
            root_path@,
            symbols@,
            order::sorted_entries(graph@.result_definitions),
        ),
        r.seen == definitions_seen(
            graph@,
            root_path@,
            symbols@,
            order::sorted_entries(graph@.result_definitions),
        ),
        r.resolved == targets_resolved(
            graph@,
            root_path@,
            symbols@,
            order::sorted_entries(graph@.result_definitions),
        ),
{
    let entries = &graph.result_definitions.entries;
    let ghost g = graph@;
    let ghost sets = order::sorted_entries(g.result_definitions);
    proof {
        graph.result_definitions.lemma_lists();
        assert(sets.take(0) =~= Seq::<SetEntry>::empty());
    }
    let mut by_set: OrderedMap<u64, Target> = OrderedMap::new();
    let mut seen: usize = 0;
    let mut resolved: usize = 0;
    let mut i: usize = 0;
    while i < entries.len()
        invariant
            i <= entries.len(),
            g == graph@,
            entries == graph.result_definitions.entries,
            graph.wf(),
            fits_machine(g),
            by_file.wf(),
            indexes(by_file@, symbols@, symbols@.len() as int),
            sets == order::sorted_entries(g.result_definitions),
            sets == graph.result_definitions.items(),
            order::lists(sets, g.result_definitions),
            by_set.wf(),
            forall|set: u64| #[trigger]
                by_set@.dom().contains(set) ==> by_set@[set].0 < symbols.len(),
            holds_targets(by_set@, g, root_path@, symbols@, sets.take(i as int)),
            seen == definitions_seen(g, root_path@, symbols@, sets.take(i as int)),
            seen <= definition_total(g, sets.take(i as int)),
            resolved == targets_resolved(g, root_path@, symbols@, sets.take(i as int)),
            resolved <= i,
        decreases entries.len() - i,
    {
        let set: u64 = entries[i].0;
        let result: u64 = entries[i].1;
        let ghost before = by_set@;
        proof {
            assert(sets[i as int] == (set, result));
            assert(g.result_definitions.contains_pair(sets[i as int].0, sets[i as int].1));
            assert(sets.take(i + 1).drop_last() =~= sets.take(i as int));
            assert(sets.take(i + 1).last() == (set, result));
            lemma_total_grows(g, sets, i + 1);
            lemma_looked_at_bound(
                g,
                root_path@,
                symbols@,
                definitions_of(g, set),
                name_hint(g, set),
                0,
            );
        }
        let moniker = find_moniker(graph, set);
        let hint = match &moniker {
            Some(identifier) => last_identifier_segment(identifier.as_str()),
            None => None,
        };
        assert(text::opt_text(hint) == name_hint(g, set));
        match graph.items.get(&result) {
            Some(items) => {
                assert(items@.definitions == definitions_of(g, set));
                let (looked_at, found) = find_definition(
                    graph,
                    root_path,
                    symbols,
                    by_file,
                    &items.definitions,
                    &hint,
                );
                seen += looked_at;
                if let Some(symbol) = found {
                    by_set.insert(set, Target { symbol, moniker });
                    resolved += 1;
                }
            },
            None => {
                assert(definitions_of(g, set) =~= Seq::<RangeRef>::empty());
            },
        }
        proof {
            let now = sets.take(i + 1);
            let was = sets.take(i as int);
            assert forall|s: u64| #[trigger] by_set@.dom().contains(s) implies by_set@[s].0
                < symbols.len() by {
                if s != set {
                    assert(before.dom().contains(s));
                }
            }
            assert forall|s: u64| is_among(now, s) <==> is_among(was, s) || s == set by {
                if is_among(was, s) {
                    let k = choose|k: int| 0 <= k < was.len() && (#[trigger] was[k]).0 == s;
                    assert(now[k] == was[k]);
                }
                if s == set {
                    assert(now[i as int].0 == s);
                }
                if is_among(now, s) && s != set {
                    let k = choose|k: int| 0 <= k < now.len() && (#[trigger] now[k]).0 == s;
                    assert(was[k] == now[k]);
                }
            }
            assert forall|s: u64| #[trigger] by_set@.dom().contains(s) <==> is_among(now, s)
                && target_of(g, root_path@, symbols@, s) is Some by {
                assert(before.dom().contains(s) <==> is_among(was, s) && target_of(
                    g,
                    root_path@,
                    symbols@,
                    s,
                ) is Some);
            }
            assert forall|s: u64| #[trigger] by_set@.dom().contains(s) implies by_set@[s] == (
                target_of(g, root_path@, symbols@, s)->0,
                moniker_of(g, s),
            ) by {
                if s != set {
                    assert(before.dom().contains(s));
                }
            }
        }
        i += 1;
    }
    assert(sets.take(i as int) =~= sets);
    Targets { by_set, seen, resolved }
}

// ---------------------------------------------------------------------------
// References
// ---------------------------------------------------------------------------

/// A range that refers to a symbol, and the name that it refers by.
#[verifier::ext_equal]
pub struct ReferenceView {
    pub symbol: int,
    pub name: Seq<char>,
    pub range: RangeRef,
}

/// A range that refers to a symbol, and the name that it refers by.
struct Reference {
    symbol: usize,
    name: String,
    range: RangeRef,
}

impl View for Reference {
    type V = ReferenceView;

    closed spec fn view(&self) -> ReferenceView {
        ReferenceView { symbol: self.symbol as int, name: self.name@, range: self.range }
    }
}

/// References by their values.
spec fn reference_views(s: Seq<Reference>) -> Seq<ReferenceView> {
    s.map_values(|r: Reference| r@)
}

/// The ranges that refer to what a result set stands for.
pub open spec fn references_of_set(
    g: LsifView,
    root: Seq<char>,
    symbols: Seq<CodeSymbol>,
    entry: SetEntry,
) -> Seq<ReferenceView> {
    match target_of(g, root, symbols, entry.0) {
        None => Seq::empty(),
        Some(symbol) => lsif_graph::items_at(g, entry.1).references.map_values(
            |range: RangeRef|
                ReferenceView {
                    symbol,
                    name: match moniker_of(g, entry.0) {
                        Some(moniker) => moniker,
                        None => symbols[symbol].name@,
                    },
                    range,
                },
        ),
    }
}

/// The ranges that refer to what result sets stand for.
pub open spec fn references_of_sets(
    g: LsifView,
    root: Seq<char>,
    symbols: Seq<CodeSymbol>,
    sets: Seq<SetEntry>,
) -> Seq<ReferenceView>
    decreases sets.len(),
{
    if sets.len() == 0 {
        Seq::empty()
    } else {
        references_of_sets(g, root, symbols, sets.drop_last()) + references_of_set(
            g,
            root,
            symbols,
            sets.last(),
        )
    }
}

/// All references of a dump, in the order of their result sets.
pub open spec fn references_of(
    g: LsifView,
    root: Seq<char>,
    symbols: Seq<CodeSymbol>,
) -> Seq<ReferenceView> {
    references_of_sets(g, root, symbols, order::sorted_entries(g.result_references))
}

/// Appends the references to what a result set stands for.
fn append_references(
    list: &mut Vec<Reference>,
    ranges: &Vec<RangeRef>,
    target: &Target,
    symbols: &Vec<CodeSymbol>,
)
    requires
        target.symbol < symbols.len(),
    ensures
        reference_views(final(list)@) == reference_views(old(list)@) + ranges@.map_values(
            |range: RangeRef|
                ReferenceView {
                    symbol: target@.0,
                    name: match target@.1 {
                        Some(moniker) => moniker,
                        None => symbols@[target@.0].name@,
                    },
                    range,
                },
        ),
        forall|k: int| 0 <= k < old(list).len() ==> #[trigger] final(list)@[k] == old(list)@[k],
        forall|k: int|
            old(list).len() <= k < final(list).len() ==> (#[trigger] final(list)@[k]).symbol
                == target.symbol,
{
    let ghost start = list@;
    let ghost of_range = |range: RangeRef|
        ReferenceView {
            symbol: target@.0,
            name: match target@.1 {
                Some(moniker) => moniker,
                None => symbols@[target@.0].name@,
            },
            range,
        };
    let mut i: usize = 0;
    assert(reference_views(start) + ranges@.take(0).map_values(of_range) =~= reference_views(
        start,
    ));
    while i < ranges.len()
        invariant
            i <= ranges.len(),
            target.symbol < symbols.len(),
            list.len() == start.len() + i,
            forall|k: int| 0 <= k < start.len() ==> #[trigger] list@[k] == start[k],
            forall|k: int|
                start.len() <= k < list.len() ==> (#[trigger] list@[k])@ == of_range(
                    ranges@[k - start.len()],
                ) && list@[k].symbol == target.symbol,
            of_range == (|range: RangeRef|
                ReferenceView {
                    symbol: target@.0,
                    name: match target@.1 {
                        Some(moniker) => moniker,
                        None => symbols@[target@.0].name@,
                    },
                    range,
                }),
        decreases ranges.len() - i,
    {
        let name = match &target.moniker {
            Some(moniker) => owned(moniker.as_str()),
            None => owned(symbols[target.symbol].name.as_str()),
        };
        list.push(Reference { symbol: target.symbol, name, range: ranges[i] });
        i += 1;
    }
    assert(reference_views(list@) =~= reference_views(start) + ranges@.map_values(of_range));
}

/// All references of a dump.
fn find_references(
    graph: &LsifGraph,
    Ghost(root): Ghost<Seq<char>>,
    symbols: &Vec<CodeSymbol>,
    targets: &OrderedMap<u64, Target>,
) -> (r: Vec<Reference>)
    requires
        graph.wf(),
        targets.wf(),
        forall|set: u64| #[trigger]
            targets@.dom().contains(set) ==> targets@[set].0 < symbols.len(),
        holds_targets(
            targets@,
            graph@,
            root,
            symbols@,
            order::sorted_entries(graph@.result_definitions),
        ),
    ensures
        reference_views(r@) == references_of(graph@, root, symbols@),
        forall|k: int| 0 <= k < r.len() ==> (#[trigger] r@[k]).symbol < symbols.len(),
{
    let entries = &graph.result_references.entries;
    let ghost g = graph@;
    let ghost sets = order::sorted_entries(g.result_references);
    proof {
        graph.result_references.lemma_lists();
        graph.result_definitions.lemma_lists();
        assert(sets.take(0) =~= Seq::<SetEntry>::empty());
    }
    let mut r: Vec<Reference> = Vec::new();
    assert(reference_views(r@) =~= Seq::<ReferenceView>::empty());
    let mut i: usize = 0;
    while i < entries.len()
        invariant
            i <= entries.len(),
            g == graph@,
            entries == graph.result_references.entries,
            graph.wf(),
            targets.wf(),
            forall|set: u64| #[trigger]
                targets@.dom().contains(set) ==> targets@[set].0 < symbols.len(),
            holds_targets(
                targets@,
                g,
                root,
                symbols@,
                order::sorted_entries(g.result_definitions),
            ),
            order::lists(order::sorted_entries(g.result_definitions), g.result_definitions),
            sets == graph.result_references.items(),
            reference_views(r@) == references_of_sets(g, root, symbols@, sets.take(i as int)),
            forall|k: int| 0 <= k < r.len() ==> (#[trigger] r@[k]).symbol < symbols.len(),
        decreases entries.len() - i,
    {
        let set: u64 = entries[i].0;
        let result: u64 = entries[i].1;
        let ghost before = r@;
        proof {
            assert(sets[i as int] == (set, result));
            assert(sets.take(i + 1).drop_last() =~= sets.take(i as int));
            lemma_targets_are_defined(g, root, symbols@, set);
        }
        match targets.get(&set) {
            Some(target) => {
                match graph.items.get(&result) {
                    Some(items) => {
                        append_references(&mut r, &items.references, target, symbols);
                    },
                    None => {
                        assert(references_of_set(g, root, symbols@, (set, result)) =~= Seq::<
                            ReferenceView,
                        >::empty());
                        assert(reference_views(before) + Seq::<ReferenceView>::empty()
                            =~= reference_views(before));
                    },
                }
            },
            None => {
                assert(reference_views(before) + Seq::<ReferenceView>::empty() =~= reference_views(
                    before,
                ));
            },
        }
        i += 1;
    }
    assert(sets.take(i as int) =~= sets);
    r
}

proof fn lemma_targets_are_defined(
    g: LsifView,
    root: Seq<char>,
    symbols: Seq<CodeSymbol>,
    set: u64,
)
    requires
        order::lists(order::sorted_entries(g.result_definitions), g.result_definitions),
    ensures
        target_of(g, root, symbols, set) is Some ==> is_among(
            order::sorted_entries(g.result_definitions),
            set,
        ),
{
    if target_of(g, root, symbols, set) is Some {
        assert(definitions_of(g, set).len() > 0);
        assert(g.result_definitions.dom().contains(set));
    }
}

// ---------------------------------------------------------------------------
// Sources
// ---------------------------------------------------------------------------

/// The lines of a file.
#[derive(Debug)]
pub struct SourceLines {
    pub lines: Vec<String>,
}

impl View for SourceLines {
    type V = Seq<Seq<char>>;

    open spec fn view(&self) -> Seq<Seq<char>> {
        text::texts(self.lines@)
    }
}

/// The lines of the files that could be read.
pub struct SourceCache {
    pub lines_by_file: OrderedMap<String, SourceLines>,
}

impl View for SourceCache {
    type V = Map<Seq<char>, Seq<Seq<char>>>;

    open spec fn view(&self) -> Map<Seq<char>, Seq<Seq<char>>> {
        self.lines_by_file@
    }
}

impl SourceCache {
    /// The invariant: the files are ordered by their paths.
    pub open spec fn wf(&self) -> bool {
        self.lines_by_file.wf()
    }

    /// No files.
    pub fn new() -> (r: Self)
        ensures
            r.wf(),
            r@ == Map::<Seq<char>, Seq<Seq<char>>>::empty(),
    {
        SourceCache { lines_by_file: OrderedMap::new() }
    }

    /// Takes the text of a file in.
    pub fn insert(&mut self, file_path: &str, source: &str)
        requires
            old(self).wf(),
        ensures
            final(self).wf(),
            final(self)@ == old(self)@.insert(file_path@, text::text_lines(source@)),
    {
        let lines = SourceLines { lines: lines_of(source) };
        self.lines_by_file.insert(owned(file_path), lines);
    }
}

/// What stands in a line from a character on.
pub open spec fn from_character(line: Seq<char>, character: nat) -> Seq<char> {
    if character <= line.len() {
        line.skip(character as int)
    } else {
        Seq::empty()
    }
}

/// Whether the next character of a line that is no white space opens a call.
pub open spec fn call_follows(line: Seq<char>, character: nat) -> bool {
    let rest = text::trimmed_start(from_character(line, character));
    rest.len() > 0 && (rest[0] == '(' || rest[0] == '!')
}

/// Whether the source must be read to tell whether a range is a call: it ends on the line that it
/// starts on.
pub open spec fn needs_source(range: LsifRange) -> bool {
    range.start_line == range.end_line
}

/// Whether a range is a call, where the lines of the file are known if they are needed.
pub open spec fn is_call(range: LsifRange, lines: Option<Seq<Seq<char>>>) -> Option<bool> {
    if !needs_source(range) {
        Some(false)
    } else {
        match lines {
            None => None,
            Some(lines) => Some(
                range.end_line < lines.len() && call_follows(
                    lines[range.end_line as int],
                    range.end_character as nat,
                ),
            ),
        }
    }
}

/// Whether the next character of a line that is no white space opens a call.
fn opens_call(line: &str, character: u32) -> (r: bool)
    ensures
        r == call_follows(line@, character as nat),
{
    let c = chars_of(line);
    if character as usize >= c.len() {
        assert(from_character(line@, character as nat) =~= Seq::<char>::empty());
        return false;
    }
    let mut at: usize = character as usize;
    let ghost rest = c@.skip(at as int);
    while at < c.len() && char_is_space(c[at])
        invariant
            at <= c.len(),
            text::trimmed_start(c@.skip(at as int)) == text::trimmed_start(rest),
        decreases c.len() - at,
    {
        assert(c@.skip(at as int).drop_first() =~= c@.skip(at + 1));
        at += 1;
    }
    if at < c.len() {
        assert(c@.skip(at as int)[0] == c@[at as int]);
    }
    at < c.len() && (c[at] == '(' || c[at] == '!')
}

/// Whether a range is a call, where the source of the file is known if it is needed.
fn is_call_like_reference(range: &LsifRange, sources: &SourceCache, file: &String) -> (r: Option<
    bool,
>)
    requires
        sources.wf(),
    ensures
        r == is_call(
            *range,
            if sources@.dom().contains(file@) {
                Some(sources@[file@])
            } else {
                None
            },
        ),
{
    if range.start_line != range.end_line {
        return Some(false);
    }
    match sources.lines_by_file.get(file) {
        None => None,
        Some(source) => {
            let at: usize = range.end_line as usize;
            if at >= source.lines.len() {
                return Some(false);
            }
            assert(source@[at as int] == source.lines@[at as int]@);
            Some(opens_call(source.lines[at].as_str(), range.end_character))
        },
    }
}

// ---------------------------------------------------------------------------
// Relations
// ---------------------------------------------------------------------------

/// Where a reference stands: its file, and the symbol over it. None where it cannot be told, or
/// where it is the definition of the symbol itself.
pub open spec fn reference_place(
    g: LsifView,
    root: Seq<char>,
    symbols: Seq<CodeSymbol>,
    reference: ReferenceView,
) -> Option<(Seq<char>, Option<Seq<char>>)> {
    match location(g, root, reference.range) {
        None => None,
        Some((file, line)) => {
            let target = symbols[reference.symbol];
            if target.file_path@ == file && target.start_line == line {
                None
            } else {
                Some(
                    (
                        file,
                        match symbol_over(symbols, file, line, None) {
                            Some(i) => Some(symbols[i].id@),
                            None => None,
                        },
                    ),
                )
            }
        },
    }
}

/// The text whose digest identifies a relation.
pub open spec fn relation_key(
    kind: Seq<char>,
    project_id: Seq<char>,
    file: Seq<char>,
    from: Option<Seq<char>>,
    target: Seq<char>,
    range_id: u64,
) -> Seq<char> {
    kind + ":"@ + project_id + ":"@ + file + ":"@ + (match from {
        Some(id) => id,
        None => "file"@,
    }) + ":"@ + target + ":"@ + text::decimal_text(range_id as nat)
}

/// The relation that a reference gives.
pub open spec fn relation_of(
    kind: Seq<char>,
    project_id: Seq<char>,
    file: Seq<char>,
    from: Option<Seq<char>>,
    target: Seq<char>,
    reference: ReferenceView,
) -> RelationView {
    RelationView {
        id: "raref_"@ + digest::blake3_text(
            relation_key(kind, project_id, file, from, target, reference.range.range_id),
        ),
        project_id,
        from_symbol_id: from,
        from_file_path: file,
        relation_kind: kind,
        target_name: reference.name,
        target_symbol_id: Some(target),
    }
}

/// What has been imported so far.
#[verifier::ext_equal]
pub struct ImportView {
    pub relations: Seq<RelationView>,
    pub seen: nat,
    pub imported: nat,
    pub calls: nat,
    pub skipped: nat,
    pub failure: Option<Seq<char>>,
}

/// Nothing imported.
pub open spec fn nothing_imported() -> ImportView {
    ImportView {
        relations: Seq::empty(),
        seen: 0,
        imported: 0,
        calls: 0,
        skipped: 0,
        failure: None,
    }
}

/// What is imported with one more reference: a relation, and another where it is a call. The
/// import stops at a reference whose source is needed and cannot be read.
pub open spec fn with_reference(
    so_far: ImportView,
    g: LsifView,
    root: Seq<char>,
    project_id: Seq<char>,
    symbols: Seq<CodeSymbol>,
    sources: Map<Seq<char>, Seq<Seq<char>>>,
    reference: ReferenceView,
) -> ImportView {
    if so_far.failure is Some {
        so_far
    } else {
        match reference_place(g, root, symbols, reference) {
            None => ImportView {
                seen: so_far.seen + 1,
                skipped: so_far.skipped + 1,
                ..so_far
            },
            Some((file, from)) => {
                let target = symbols[reference.symbol].id@;
                let range = g.ranges[reference.range.range_id];
                let lines = if sources.dom().contains(file) {
                    Some(sources[file])
                } else {
                    None
                };
                let relations = so_far.relations.push(
                    relation_of("ra_reference"@, project_id, file, from, target, reference),
                );
                let call = is_call(range, lines);
                ImportView {
                    relations: if call == Some(true) {
                        relations.push(
                            relation_of("ra_call"@, project_id, file, from, target, reference),
                        )
                    } else {
                        relations
                    },
                    seen: so_far.seen + 1,
                    imported: so_far.imported + 1,
                    calls: so_far.calls + (if call == Some(true) {
                        1nat
                    } else {
                        0
                    }),
                    skipped: so_far.skipped,
                    failure: if call is None {
                        Some("failed to read source "@ + file_paths::joined_path(root, file))
                    } else {
                        None
                    },
                }
            },
        }
    }
}

/// What is imported with references.
pub open spec fn with_references(
    g: LsifView,
    root: Seq<char>,
    project_id: Seq<char>,
    symbols: Seq<CodeSymbol>,
    sources: Map<Seq<char>, Seq<Seq<char>>>,
    references: Seq<ReferenceView>,
) -> ImportView
    decreases references.len(),
{
    if references.len() == 0 {
        nothing_imported()
    } else {
        with_reference(
            with_references(g, root, project_id, symbols, sources, references.drop_last()),
            g,
            root,
            project_id,
            symbols,
            sources,
            references.last(),
        )
    }
}

/// The identifier of a relation.
fn ra_relation_id(
    kind: &str,
    project_id: &str,
    file: &str,
    from: &Option<String>,
    target: &str,
    range_id: u64,
) -> (r: String)
    ensures
        r@ == "raref_"@ + digest::blake3_text(
            relation_key(kind@, project_id@, file@, text::opt_text(*from), target@, range_id),
        ),
{
    let number = decimal(range_id);
    let mut key = cat6(kind, ":", project_id, ":", file, ":");
    match from {
        Some(id) => key.append(id.as_str()),
        None => key.append("file"),
    }
    key.append(":");
    key.append(target);
    key.append(":");
    key.append(number.as_str());
    let hex = blake3_hex(key.as_str());
    cat2("raref_", hex.as_str())
}

/// The relation that a reference gives.
fn make_relation(
    kind: &str,
    project_id: &str,
    file: &str,
    from: &Option<String>,
    target: &str,
    reference: &Reference,
) -> (r: CodeRelation)
    ensures
        r@ == relation_of(
            kind@,
            project_id@,
            file@,
            text::opt_text(*from),
            target@,
            reference@,
        ),
{
    CodeRelation {
        id: ra_relation_id(kind, project_id, file, from, target, reference.range.range_id),
        project_id: owned(project_id),
        from_symbol_id: copy_opt(from),
        from_file_path: owned(file),
        relation_kind: owned(kind),
        target_name: owned(reference.name.as_str()),
        target_symbol_id: Some(owned(target)),
    }
}

/// Relations by their values.
pub open spec fn relation_views(s: Seq<CodeRelation>) -> Seq<RelationView> {
    s.map_values(|r: CodeRelation| r@)
}

// ---------------------------------------------------------------------------
// The import
// ---------------------------------------------------------------------------

/// What was imported from a dump, in numbers.
#[derive(Debug, Clone, PartialEq, Eq)]
pub struct LsifImportReport {
    pub project_id: String,
    pub root_path: String,
    pub source: String,
    pub documents: usize,
    pub ranges: usize,
    pub definitions_seen: usize,
    pub reference_ranges_seen: usize,
    pub target_symbols_resolved: usize,
    pub relations_imported: usize,
    pub call_relations_imported: usize,
    pub relations_skipped: usize,
    pub stale_relations_removed: usize,
}

/// The relations to insert, in numbers too, and why the import stopped short where it did.
#[derive(Debug)]
pub struct LsifImport {
    pub relations: Vec<CodeRelation>,
    pub report: LsifImportReport,
    pub failure: Option<String>,
}

/// What comes of importing a dump.
pub open spec fn import_of(
    g: LsifView,
    root: Seq<char>,
    project_id: Seq<char>,
    symbols: Seq<CodeSymbol>,
    sources: Map<Seq<char>, Seq<Seq<char>>>,
) -> ImportView {
    with_references(g, root, project_id, symbols, sources, references_of(g, root, symbols))
}

/// Whether an import is the one that a dump gives.
pub open spec fn imports(
    r: LsifImport,
    g: LsifView,
    root: Seq<char>,
    project_id: Seq<char>,
    source: Seq<char>,
    symbols: Seq<CodeSymbol>,
    stale: nat,
    sources: Map<Seq<char>, Seq<Seq<char>>>,
) -> bool {
    let due = import_of(g, root, project_id, symbols, sources);
    let sets = order::sorted_entries(g.result_definitions);
    &&& relation_views(r.relations@) == due.relations
    &&& text::opt_text(r.failure) == due.failure
    &&& r.report.project_id@ == project_id
    &&& r.report.root_path@ == root
    &&& r.report.source@ == source
    &&& r.report.documents == order::sorted_entries(g.documents).len()
    &&& r.report.ranges == order::sorted_entries(g.ranges).len()
    &&& r.report.definitions_seen == definitions_seen(g, root, symbols, sets)
    &&& r.report.reference_ranges_seen == due.seen
    &&& r.report.target_symbols_resolved == targets_resolved(g, root, symbols, sets)
    &&& r.report.relations_imported == due.imported
    &&& r.report.call_relations_imported == due.calls
    &&& r.report.relations_skipped == due.skipped
    &&& r.report.stale_relations_removed == stale
}

/// Where a reference stands: its file, and the symbol over it.
fn place_reference(
    graph: &LsifGraph,
    root_path: &str,
    symbols: &Vec<CodeSymbol>,
    by_file: &OrderedMap<String, Places>,
    reference: &Reference,
) -> (r: Option<(String, Option<String>)>)
    requires
        graph.wf(),
        lines_fit(graph@),
        by_file.wf(),
        indexes(by_file@, symbols@, symbols@.len() as int),
        reference.symbol < symbols.len(),
    ensures
        match r {
            Some((file, from)) => reference_place(graph@, root_path@, symbols@, reference@) == Some(
                (file@, text::opt_text(from)),
            ) && graph@.ranges.dom().contains(reference@.range.range_id),
            None => reference_place(graph@, root_path@, symbols@, reference@) is None,
        },
{
    match range_location(graph, root_path, &reference.range) {
        None => None,
        Some((file, line)) => {
            let target = &symbols[reference.symbol];
            if same_text(target.file_path.as_str(), file.as_str()) && target.start_line == line {
                return None;
            }
            let from = match smallest_symbol_span(symbols, by_file, &file, line, &None) {
                Some(i) => Some(owned(symbols[i].id.as_str())),
                None => None,
            };
            Some((file, from))
        },
    }
}

proof fn lemma_failure_stays(
    g: LsifView,
    root: Seq<char>,
    project_id: Seq<char>,
    symbols: Seq<CodeSymbol>,
    sources: Map<Seq<char>, Seq<Seq<char>>>,
    references: Seq<ReferenceView>,
    n: int,
)
    requires
        0 <= n <= references.len(),
        with_references(g, root, project_id, symbols, sources, references.take(n)).failure is Some,
    ensures
        with_references(g, root, project_id, symbols, sources, references) == with_references(
            g,
            root,
            project_id,
            symbols,
            sources,
            references.take(n),
        ),
    decreases references.len() - n,
{
    if n == references.len() {
        assert(references.take(n) =~= references);
    } else {
        assert(references.take(n + 1).drop_last() =~= references.take(n));
        lemma_failure_stays(g, root, project_id, symbols, sources, references, n + 1);
    }
}

/// Imports what a dump says: relations from the symbols that refer to symbols of the project, and
/// calls among them.
pub fn import_lsif_graph(
    graph: &LsifGraph,
    project_id: &str,
    root_path: &str,
    source: &str,
    symbols: &Vec<CodeSymbol>,
    stale_references_removed: usize,
    stale_calls_removed: usize,
    sources: &SourceCache,
) -> (r: LsifImport)
    requires
        graph.wf(),
        fits_machine(graph@),
        sources.wf(),
        stale_references_removed + stale_calls_removed <= usize::MAX,
    ensures
        imports(
            r,
            graph@,
            root_path@,
            project_id@,
            source@,
            symbols@,
            (stale_references_removed + stale_calls_removed) as nat,
            sources@,
        ),
{
    let ghost g = graph@;
    let by_file = symbols_by_file(symbols);
    let targets = find_targets(graph, root_path, symbols, &by_file);
    let references = find_references(graph, Ghost(root_path@), symbols, &targets.by_set);
    let ghost all = reference_views(references@);
    let mut relations: Vec<CodeRelation> = Vec::new();
    let mut seen: usize = 0;
    let mut imported: usize = 0;
    let mut calls: usize = 0;
    let mut skipped: usize = 0;
    let mut failure: Option<String> = None;
    let mut i: usize = 0;
    proof {
        assert(all.take(0) =~= Seq::<ReferenceView>::empty());
        assert(relation_views(relations@) =~= Seq::<RelationView>::empty());
    }
    while i < references.len() && failure.is_none()
        invariant
            i <= references.len(),
            g == graph@,
            graph.wf(),
            fits_machine(g),
            sources.wf(),
            by_file.wf(),
            indexes(by_file@, symbols@, symbols@.len() as int),
            all == reference_views(references@),
            forall|k: int| 0 <= k < references.len() ==> (#[trigger] references@[k]).symbol
                < symbols.len(),
            seen <= i,
            imported <= i,
            calls <= i,
            skipped <= i,
            with_references(g, root_path@, project_id@, symbols@, sources@, all.take(i as int)) == (
            ImportView {
                relations: relation_views(relations@),
                seen: seen as nat,
                imported: imported as nat,
                calls: calls as nat,
                skipped: skipped as nat,
                failure: text::opt_text(failure),
            }),
        decreases references.len() - i,
    {
        let reference = &references[i];
        let ghost before = relations@;
        proof {
            assert(all[i as int] == reference@);
            assert(all.take(i + 1).drop_last() =~= all.take(i as int));
            assert(all.take(i + 1).last() == reference@);
        }
        seen += 1;
        match place_reference(graph, root_path, symbols, &by_file, reference) {
            None => {
                skipped += 1;
            },
            Some((file, from)) => {
                let target = symbols[reference.symbol].id.as_str();
                let relation = make_relation(
                    "ra_reference",
                    project_id,
                    file.as_str(),
                    &from,
                    target,
                    reference,
                );
                let ghost first = relation@;
                relations.push(relation);
                assert(relation_views(relations@) =~= relation_views(before).push(first));
                imported += 1;
                let call = match graph.ranges.get(&reference.range.range_id) {
                    Some(range) => is_call_like_reference(range, sources, &file),
                    None => Some(false),
                };
                match call {
                    Some(true) => {
                        let relation = make_relation(
                            "ra_call",
                            project_id,
                            file.as_str(),
                            &from,
                            target,
                            reference,
                        );
                        let ghost second = relation@;
                        relations.push(relation);
                        assert(relation_views(relations@) =~= relation_views(before).push(
                            first,
                        ).push(second));
                        calls += 1;
                    },
                    Some(false) => {},
                    None => {
                        let path = join_path(root_path, file.as_str());
                        failure = Some(cat2("failed to read source ", path.as_str()));
                    },
                }
            },
        }
        i += 1;
    }
    proof {
        if i < references.len() {
            lemma_failure_stays(
                g,
                root_path@,
                project_id@,
                symbols@,
                sources@,
                all,
                i as int,
            );
        } else {
            assert(all.take(i as int) =~= all);
        }
        graph.documents.lemma_lists();
        graph.ranges.lemma_lists();
    }
    let report = LsifImportReport {
        project_id: owned(project_id),
        root_path: owned(root_path),
        source: owned(source),
        documents: graph.documents.entries.len(),
        ranges: graph.ranges.entries.len(),
        definitions_seen: targets.seen,
        reference_ranges_seen: seen,
        target_symbols_resolved: targets.resolved,
        relations_imported: imported,
        call_relations_imported: calls,
        relations_skipped: skipped,
        stale_relations_removed: stale_references_removed + stale_calls_removed,
    };
    LsifImport { relations, report, failure }
}

/// Whether a machine can hold what a dump says.
fn graph_fits(graph: &LsifGraph) -> (r: bool)
    requires
        graph.wf(),
    ensures
        r == fits_machine(graph@),
{
    let ghost g = graph@;
    let ranges = &graph.ranges.entries;
    let ghost listed = graph.ranges.items();
    proof {
        graph.ranges.lemma_lists();
        graph.result_definitions.lemma_lists();
    }
    let mut i: usize = 0;
    while i < ranges.len()
        invariant
            i <= ranges.len(),
            g == graph@,
            ranges == graph.ranges.entries,
            listed == graph.ranges.items(),
            order::lists(listed, g.ranges),
            forall|k: int| 0 <= k < i ==> (#[trigger] listed[k]).1.start_line < u32::MAX,
        decreases ranges.len() - i,
    {
        assert(listed[i as int] == (ranges@[i as int].0, ranges@[i as int].1));
        assert(g.ranges.contains_pair(listed[i as int].0, listed[i as int].1));
        if ranges[i].1.start_line == u32::MAX {
            assert(g.ranges.dom().contains(listed[i as int].0));
            return false;
        }
        i += 1;
    }
    assert(lines_fit(g)) by {
        assert forall|id: u64| #[trigger] g.ranges.dom().contains(id) implies g.ranges[id].start_line
            < u32::MAX by {
            let k = choose|k: int| 0 <= k < listed.len() && (#[trigger] listed[k]).0 == id;
            assert(g.ranges.contains_pair(listed[k].0, listed[k].1));
        }
    }
    let entries = &graph.result_definitions.entries;
    let ghost sets = graph.result_definitions.items();
    let mut total: usize = 0;
    let mut j: usize = 0;
    assert(sets.take(0) =~= Seq::<SetEntry>::empty());
    while j < entries.len()
        invariant
            j <= entries.len(),
            g == graph@,
            graph.wf(),
            lines_fit(g),
            entries == graph.result_definitions.entries,
            sets == graph.result_definitions.items(),
            sets == order::sorted_entries(g.result_definitions),
            order::lists(sets, g.result_definitions),
            total == definition_total(g, sets.take(j as int)),
        decreases entries.len() - j,
    {
        proof {
            assert(sets[j as int] == (entries@[j as int].0, entries@[j as int].1));
            assert(g.result_definitions.contains_pair(sets[j as int].0, sets[j as int].1));
            assert(sets.take(j + 1).drop_last() =~= sets.take(j as int));
            lemma_total_grows(g, sets, j + 1);
        }
        let more: usize = match graph.items.get(&entries[j].1) {
            Some(items) => items.definitions.len(),
            None => 0,
        };
        assert(more == definitions_of(g, sets[j as int].0).len());
        match total.checked_add(more) {
            Some(sum) => {
                total = sum;
            },
            None => {
                return false;
            },
        }
        j += 1;
    }
    assert(sets.take(j as int) =~= sets);
    true
}

/// What a dump that can be imported says.
pub open spec fn importable(lsif: Seq<char>) -> Result<LsifView, Seq<char>> {
    match lsif_graph::lsif_of_text(lsif) {
        Err(e) => Err(e),
        Ok(g) => if fits_machine(g) {
            Ok(g)
        } else {
            Err("LSIF dump is too large to import"@)
        },
    }
}

/// Reads a dump that can be imported.
fn read_importable(lsif: &str) -> (r: Result<LsifGraph, String>)
    ensures
        match r {
            Ok(graph) => graph.wf() && fits_machine(graph@) && importable(lsif@) == Ok::<
                LsifView,
                Seq<char>,
            >(graph@),
            Err(message) => importable(lsif@) == Err::<LsifView, Seq<char>>(message@),
        },
{
    match parse_lsif(lsif) {
        Err(message) => Err(message),
        Ok(graph) => if graph_fits(&graph) {
            Ok(graph)
        } else {
            Err(owned("LSIF dump is too large to import"))
        },
    }
}

/// Imports a dump: relations from the symbols that refer to symbols of the project, and calls
/// among them.
pub fn import_rust_analyzer_lsif(
    project_id: &str,
    root_path: &str,
    source: &str,
    lsif: &str,
    symbols: &Vec<CodeSymbol>,
    stale_references_removed: usize,
    stale_calls_removed: usize,
    sources: &SourceCache,
) -> (r: Result<LsifImport, String>)
    requires
        sources.wf(),
        stale_references_removed + stale_calls_removed <= usize::MAX,
    ensures
        match r {
            Err(message) => importable(lsif@) == Err::<LsifView, Seq<char>>(message@),
            Ok(import) => importable(lsif@) is Ok && imports(
                import,
                importable(lsif@)->Ok_0,
                root_path@,
                project_id@,
                source@,
                symbols@,
                (stale_references_removed + stale_calls_removed) as nat,
                sources@,
            ),
        },
{
    match read_importable(lsif) {
        Err(message) => Err(message),
        Ok(graph) => Ok(
            import_lsif_graph(
                &graph,
                project_id,
                root_path,
                source,
                symbols,
                stale_references_removed,
                stale_calls_removed,
                sources,
            ),
        ),
    }
}

// ---------------------------------------------------------------------------
// The sources that an import needs
// ---------------------------------------------------------------------------

/// The file whose source is needed to tell whether a reference is a call.
pub open spec fn source_needed(
    g: LsifView,
    root: Seq<char>,
    symbols: Seq<CodeSymbol>,
    reference: ReferenceView,
) -> Option<Seq<char>> {
    match reference_place(g, root, symbols, reference) {
        Some((file, _)) => if needs_source(g.ranges[reference.range.range_id]) {
            Some(file)
        } else {
            None
        },
        None => None,
    }
}

/// The files whose source is needed for references.
pub open spec fn sources_needed(
    g: LsifView,
    root: Seq<char>,
    symbols: Seq<CodeSymbol>,
    references: Seq<ReferenceView>,
) -> Set<Seq<char>>
    decreases references.len(),
{
    if references.len() == 0 {
        Set::empty()
    } else {
        let rest = sources_needed(g, root, symbols, references.drop_last());
        match source_needed(g, root, symbols, references.last()) {
            Some(file) => rest.insert(file),
            None => rest,
        }
    }
}

/// The files whose source an import of a dump needs.
pub fn lsif_source_paths(lsif: &str, root_path: &str, symbols: &Vec<CodeSymbol>) -> (r: Result<
    Vec<String>,
    String,
>)
    ensures
        match r {
            Err(message) => importable(lsif@) == Err::<LsifView, Seq<char>>(message@),
            Ok(paths) => {
                let g = importable(lsif@)->Ok_0;
                &&& importable(lsif@) is Ok
                &&& order::texts_ascend(text::texts(paths@))
                &&& text::texts(paths@).to_set() == sources_needed(
                    g,
                    root_path@,
                    symbols@,
                    references_of(g, root_path@, symbols@),
                )
            },
        },
{
    let graph = match read_importable(lsif) {
        Ok(graph) => graph,
        Err(message) => return Err(message),
    };
    let ghost g = graph@;
    let by_file = symbols_by_file(symbols);
    let targets = find_targets(&graph, root_path, symbols, &by_file);
    let references = find_references(&graph, Ghost(root_path@), symbols, &targets.by_set);
    let ghost all = reference_views(references@);
    let mut paths = TextSet::new();
    let mut i: usize = 0;
    assert(all.take(0) =~= Seq::<ReferenceView>::empty());
    while i < references.len()
        invariant
            i <= references.len(),
            g == graph@,
            graph.wf(),
            fits_machine(g),
            by_file.wf(),
            indexes(by_file@, symbols@, symbols@.len() as int),
            all == reference_views(references@),
            forall|k: int| 0 <= k < references.len() ==> (#[trigger] references@[k]).symbol
                < symbols.len(),
            paths.wf(),
            paths@ == sources_needed(g, root_path@, symbols@, all.take(i as int)),
        decreases references.len() - i,
    {
        let reference = &references[i];
        proof {
            assert(all[i as int] == reference@);
            assert(all.take(i + 1).drop_last() =~= all.take(i as int));
            assert(all.take(i + 1).last() == reference@);
        }
        if let Some((file, _)) = place_reference(&graph, root_path, symbols, &by_file, reference) {
            if let Some(range) = graph.ranges.get(&reference.range.range_id) {
                if range.start_line == range.end_line {
                    paths.insert(file);
                }
            }
        }
        i += 1;
    }
    assert(all.take(i as int) =~= all);
    Ok(paths.to_list())
}

// ---------------------------------------------------------------------------
// Laws
// ---------------------------------------------------------------------------

/// Every reference that is looked at is imported or skipped, every import gives one relation, and
/// every call one more; where the import does not stop short, all references are looked at.
pub proof fn import_accounts_for_references(
    g: LsifView,
    root: Seq<char>,
    project_id: Seq<char>,
    symbols: Seq<CodeSymbol>,
    sources: Map<Seq<char>, Seq<Seq<char>>>,
    references: Seq<ReferenceView>,
)
    ensures
        ({
            let done = with_references(g, root, project_id, symbols, sources, references);
            &&& done.seen == done.imported + done.skipped
            &&& done.seen <= references.len()
            &&& done.calls <= done.imported
            &&& done.relations.len() == done.imported + done.calls
            &&& done.failure is None ==> done.seen == references.len()
        }),
    decreases references.len(),
{
    if references.len() > 0 {
        import_accounts_for_references(
            g,
            root,
            project_id,
            symbols,
            sources,
            references.drop_last(),
        );
    }
}

/// A result set stands for a symbol only where a range that defines it was looked at: there are no
/// more targets than definitions that were looked at, and no more of these than there are.
pub proof fn no_more_targets_than_definitions(
    g: LsifView,
    root: Seq<char>,
    symbols: Seq<CodeSymbol>,
    sets: Seq<SetEntry>,
)
    ensures
        targets_resolved(g, root, symbols, sets) <= definitions_seen(g, root, symbols, sets),
        definitions_seen(g, root, symbols, sets) <= definition_total(g, sets),
    decreases sets.len(),
{
    if sets.len() > 0 {
        no_more_targets_than_definitions(g, root, symbols, sets.drop_last());
        let set = sets.last().0;
        lemma_first_defined_is_a_place(
            g,
            root,
            symbols,
            definitions_of(g, set),
            name_hint(g, set),
            0,
        );
    }
}

proof fn lemma_first_defined_is_a_place(
    g: LsifView,
    root: Seq<char>,
    symbols: Seq<CodeSymbol>,
    ranges: Seq<RangeRef>,
    name: Option<Seq<char>>,
    at: int,
)
    ensures
        first_defined(g, root, symbols, ranges, name, at) matches Some((place, _)) ==> 0 <= at
            <= place < ranges.len(),
    decreases ranges.len() - at,
{
    if 0 <= at < ranges.len() {
        lemma_first_defined_is_a_place(g, root, symbols, ranges, name, at + 1);
    }
}

/// Whether a relation is the reference that a call is.
pub open spec fn is_reference_of_call(reference: RelationView, call: RelationView) -> bool {
    &&& reference.relation_kind == "ra_reference"@
    &&& reference.project_id == call.project_id
    &&& reference.from_symbol_id == call.from_symbol_id
    &&& reference.from_file_path == call.from_file_path
    &&& reference.target_name == call.target_name
    &&& reference.target_symbol_id == call.target_symbol_id
}

/// Every relation is a reference or a call, and right before a call stands the reference that
/// it is.
pub proof fn calls_are_references(
    g: LsifView,
    root: Seq<char>,
    project_id: Seq<char>,
    symbols: Seq<CodeSymbol>,
    sources: Map<Seq<char>, Seq<Seq<char>>>,
    references: Seq<ReferenceView>,
)
    ensures
        ({
            let relations = with_references(
                g,
                root,
                project_id,
                symbols,
                sources,
                references,
            ).relations;
            forall|i: int|
                0 <= i < relations.len() ==> (#[trigger] relations[i]).relation_kind
                    == "ra_reference"@ || relations[i].relation_kind == "ra_call"@ && i > 0
                    && is_reference_of_call(relations[i - 1], relations[i])
        }),
    decreases references.len(),
{
    if references.len() > 0 {
        calls_are_references(g, root, project_id, symbols, sources, references.drop_last());
    }
}

/// An import that has the sources it needs does not stop short.
pub proof fn import_with_its_sources_is_whole(
    g: LsifView,
    root: Seq<char>,
    project_id: Seq<char>,
    symbols: Seq<CodeSymbol>,
    sources: Map<Seq<char>, Seq<Seq<char>>>,
    references: Seq<ReferenceView>,
)
    requires
        sources_needed(g, root, symbols, references).subset_of(sources.dom()),
    ensures
        with_references(g, root, project_id, symbols, sources, references).failure is None,
    decreases references.len(),
{
    if references.len() > 0 {
        let rest = references.drop_last();
        let needed = sources_needed(g, root, symbols, references);
        match source_needed(g, root, symbols, references.last()) {
            Some(file) => {
                assert(needed.contains(file));
            },
            None => {},
        }
        assert forall|f: Seq<char>| sources_needed(g, root, symbols, rest).contains(f) implies
            sources.dom().contains(f) by {
            assert(needed.contains(f));
        }
        import_with_its_sources_is_whole(g, root, project_id, symbols, sources, rest);
    }
}

/// A symbol of the project, by its id.
pub open spec fn is_symbol_id(symbols: Seq<CodeSymbol>, id: Seq<char>) -> bool {
    exists|k: int| 0 <= k < symbols.len() && (#[trigger] symbols[k]).id@ == id
}

/// Whether a relation lies within a project: it is of the project, it leads to a symbol of it,
/// and the symbol that it comes from, where there is one, is one of the project.
pub open spec fn lies_within(
    relation: RelationView,
    project_id: Seq<char>,
    symbols: Seq<CodeSymbol>,
) -> bool {
    &&& relation.project_id == project_id
    &&& relation.target_symbol_id matches Some(id) && is_symbol_id(symbols, id)
    &&& relation.from_symbol_id matches Some(id) ==> is_symbol_id(symbols, id)
}

proof fn lemma_first_defined_is_a_symbol(
    g: LsifView,
    root: Seq<char>,
    symbols: Seq<CodeSymbol>,
    ranges: Seq<RangeRef>,
    name: Option<Seq<char>>,
    at: int,
)
    ensures
        first_defined(g, root, symbols, ranges, name, at) matches Some((_, symbol)) ==> 0 <= symbol
            < symbols.len(),
    decreases ranges.len() - at,
{
    if 0 <= at < ranges.len() {
        if let Some((file, line)) = location(g, root, ranges[at]) {
            symbol_over_is_narrowest(symbols, file, line, name, symbols.len());
        }
        lemma_first_defined_is_a_symbol(g, root, symbols, ranges, name, at + 1);
    }
}

proof fn lemma_references_are_to_symbols(
    g: LsifView,
    root: Seq<char>,
    symbols: Seq<CodeSymbol>,
    sets: Seq<SetEntry>,
)
    ensures
        forall|k: int|
            0 <= k < references_of_sets(g, root, symbols, sets).len() ==> 0 <= (
            #[trigger] references_of_sets(g, root, symbols, sets)[k]).symbol < symbols.len(),
    decreases sets.len(),
{
    if sets.len() > 0 {
        lemma_references_are_to_symbols(g, root, symbols, sets.drop_last());
        let set = sets.last().0;
        lemma_first_defined_is_a_symbol(
            g,
            root,
            symbols,
            definitions_of(g, set),
            name_hint(g, set),
            0,
        );
        let front = references_of_sets(g, root, symbols, sets.drop_last());
        let back = references_of_set(g, root, symbols, sets.last());
        let all = references_of_sets(g, root, symbols, sets);
        assert(all == front + back);
        assert forall|k: int| 0 <= k < all.len() implies 0 <= (#[trigger] all[k]).symbol
            < symbols.len() by {
            if k < front.len() {
                assert(all[k] == front[k]);
            } else {
                assert(all[k] == back[k - front.len()]);
            }
        }
    }
}

proof fn lemma_relations_lie_within(
    g: LsifView,
    root: Seq<char>,
    project_id: Seq<char>,
    symbols: Seq<CodeSymbol>,
    sources: Map<Seq<char>, Seq<Seq<char>>>,
    references: Seq<ReferenceView>,
)
    requires
        forall|k: int|
            0 <= k < references.len() ==> 0 <= (#[trigger] references[k]).symbol < symbols.len(),
    ensures
        ({
            let done = with_references(g, root, project_id, symbols, sources, references);
            forall|i: int|
                0 <= i < done.relations.len() ==> lies_within(
                    #[trigger] done.relations[i],
                    project_id,
                    symbols,
                )
        }),
    decreases references.len(),
{
    if references.len() > 0 {
        let rest = references.drop_last();
        assert forall|k: int| 0 <= k < rest.len() implies 0 <= (#[trigger] rest[k]).symbol
            < symbols.len() by {
            assert(rest[k] == references[k]);
        }
        lemma_relations_lie_within(g, root, project_id, symbols, sources, rest);
        let last = references.last();
        assert(last == references[references.len() - 1]);
        assert(is_symbol_id(symbols, symbols[last.symbol].id@));
        if let Some((file, line)) = location(g, root, last.range) {
            symbol_over_is_narrowest(symbols, file, line, None, symbols.len());
            if let Some(i) = symbol_over(symbols, file, line, None) {
                assert(is_symbol_id(symbols, symbols[i].id@));
            }
        }
    }
}

/// An import does not leave the project: all that comes of it is of the project and lies between
/// its symbols.
pub proof fn import_stays_in_its_project(
    g: LsifView,
    root: Seq<char>,
    project_id: Seq<char>,
    symbols: Seq<CodeSymbol>,
    sources: Map<Seq<char>, Seq<Seq<char>>>,
)
    ensures
        ({
            let relations = import_of(g, root, project_id, symbols, sources).relations;
            forall|i: int|
                0 <= i < relations.len() ==> lies_within(
                    #[trigger] relations[i],
                    project_id,
                    symbols,
                )
        }),
{
    lemma_references_are_to_symbols(g, root, symbols, order::sorted_entries(g.result_references));
    lemma_relations_lie_within(
        g,
        root,
        project_id,
        symbols,
        sources,
        references_of(g, root, symbols),
    );
}

} // verus!
