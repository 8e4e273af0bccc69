//! Code intelligence dumps in LSIF: one JSON record on a line, read into a graph.
use vstd::prelude::*;
use vstd::string::*;
use crate::json::{parse_json, Json, JsonView};
use crate::order::OrderedMap;
use crate::text::{cat3, cat4, decimal, lines_of, owned, same_text, trim};
use crate::{json, text};

verus! {

/// Where a range starts and ends, counted from zero.
#[derive(Debug, Clone, Copy, PartialEq, Eq, Structural)]
pub struct LsifRange {
    pub start_line: u32,
    pub end_line: u32,
    pub end_character: u32,
}

impl View for LsifRange {
    type V = LsifRange;

    open spec fn view(&self) -> LsifRange {
        *self
    }
}

/// A range that a record speaks of, and the document that it names with it.
#[derive(Debug, Clone, Copy, PartialEq, Eq, Structural)]
pub struct RangeRef {
    pub document_id: u64,
    pub range_id: u64,
}

/// The ranges of a result.
#[derive(Debug)]
pub struct LsifItems {
    pub definitions: Vec<RangeRef>,
    pub references: Vec<RangeRef>,
}

/// The ranges of a result, by their values.
#[verifier::ext_equal]
pub struct ItemsView {
    pub definitions: Seq<RangeRef>,
    pub references: Seq<RangeRef>,
}

impl View for LsifItems {
    type V = ItemsView;

    open spec fn view(&self) -> ItemsView {
        ItemsView { definitions: self.definitions@, references: self.references@ }
    }
}

/// What a dump says of documents, ranges and results.
pub struct LsifGraph {
    pub documents: OrderedMap<u64, String>,
    pub ranges: OrderedMap<u64, LsifRange>,
    pub range_documents: OrderedMap<u64, u64>,
    pub range_result_sets: OrderedMap<u64, u64>,
    pub result_definitions: OrderedMap<u64, u64>,
    pub result_references: OrderedMap<u64, u64>,
    pub result_monikers: OrderedMap<u64, u64>,
    pub monikers: OrderedMap<u64, String>,
    pub items: OrderedMap<u64, LsifItems>,
}

/// What a dump says, by its values.
#[verifier::ext_equal]
pub struct LsifView {
    pub documents: Map<u64, Seq<char>>,
    pub ranges: Map<u64, LsifRange>,
    pub range_documents: Map<u64, u64>,
    pub range_result_sets: Map<u64, u64>,
    pub result_definitions: Map<u64, u64>,
    pub result_references: Map<u64, u64>,
    pub result_monikers: Map<u64, u64>,
    pub monikers: Map<u64, Seq<char>>,
    pub items: Map<u64, ItemsView>,
}

impl View for LsifGraph {
    type V = LsifView;

    open spec fn view(&self) -> LsifView {
        LsifView {
            documents: self.documents@,
            ranges: self.ranges@,
            range_documents: self.range_documents@,
            range_result_sets: self.range_result_sets@,
            result_definitions: self.result_definitions@,
            result_references: self.result_references@,
            result_monikers: self.result_monikers@,
            monikers: self.monikers@,
            items: self.items@,
        }
    }
}

/// A graph that says nothing.
pub open spec fn empty_lsif() -> LsifView {
    LsifView {
        documents: Map::empty(),
        ranges: Map::empty(),
        range_documents: Map::empty(),
        range_result_sets: Map::empty(),
        result_definitions: Map::empty(),
        result_references: Map::empty(),
        result_monikers: Map::empty(),
        monikers: Map::empty(),
        items: Map::empty(),
    }
}

// ---------------------------------------------------------------------------
// Fields
// ---------------------------------------------------------------------------

/// The number of a field that a record must have.
pub open spec fn needed_number(value: JsonView, field: Seq<char>) -> Result<u64, Seq<char>> {
    match value.number_field(field) {
        Some(n) => Ok(n),
        None => Err("LSIF value is missing numeric field `"@ + field + "`"@),
    }
}

/// Whether all values are numbers.
pub open spec fn all_numbers(values: Seq<JsonView>) -> bool {
    forall|i: int| 0 <= i < values.len() ==> (#[trigger] values[i]).number() is Some
}

/// The numbers of a field that a record must have.
pub open spec fn needed_numbers(value: JsonView, field: Seq<char>) -> Result<Seq<u64>, Seq<char>> {
    match value.values_field(field) {
        None => Err("LSIF value is missing array field `"@ + field + "`"@),
        Some(values) => if all_numbers(values) {
            Ok(values.map_values(|v: JsonView| v.number()->0))
        } else {
            Err("LSIF array contains a non-numeric id"@)
        },
    }
}

/// Whether a result of the library is the one that is due.
pub open spec fn same_result<T>(r: Result<T, String>, due: Result<T, Seq<char>>) -> bool {
    match (r, due) {
        (Ok(x), Ok(y)) => x == y,
        (Err(message), Err(words)) => message@ == words,
        _ => false,
    }
}

/// The number of a field that a record must have.
fn required_u64(value: &Json, field: &str) -> (r: Result<u64, String>)
    ensures
        same_result(r, needed_number(value@, field@)),
{
    match value.number_field(field) {
        Some(n) => Ok(n),
        None => Err(cat3("LSIF value is missing numeric field `", field, "`")),
    }
}

/// The numbers of a field that a record must have.
fn required_u64_array(value: &Json, field: &str) -> (r: Result<Vec<u64>, String>)
    ensures
        match r {
            Ok(numbers) => needed_numbers(value@, field@) == Ok::<Seq<u64>, Seq<char>>(numbers@),
            Err(message) => needed_numbers(value@, field@) == Err::<Seq<u64>, Seq<char>>(message@),
        },
{
    match value.values_field(field) {
        None => Err(cat3("LSIF value is missing array field `", field, "`")),
        Some(values) => {
            let ghost all = json::json_views(values@);
            let mut numbers: Vec<u64> = Vec::new();
            let mut i: usize = 0;
            while i < values.len()
                invariant
                    i <= values.len(),
                    numbers.len() == i,
                    all == json::json_views(values@),
                    needed_numbers(value@, field@) == (if all_numbers(all) {
                        Ok::<Seq<u64>, Seq<char>>(all.map_values(|v: JsonView| v.number()->0))
                    } else {
                        Err("LSIF array contains a non-numeric id"@)
                    }),
                    forall|j: int|
                        0 <= j < i ==> (#[trigger] all[j]).number() == Some(numbers@[j]),
                decreases values.len() - i,
            {
                assert(all[i as int] == values@[i as int]@);
                match values[i].as_number() {
                    Some(n) => {
                        numbers.push(n);
                    },
                    None => {
                        return Err(owned("LSIF array contains a non-numeric id"));
                    },
                }
                i += 1;
            }
            assert(all_numbers(all));
            assert(numbers@ =~= all.map_values(|v: JsonView| v.number()->0));
            Ok(numbers)
        },
    }
}

// ---------------------------------------------------------------------------
// Records
// ---------------------------------------------------------------------------

/// The range that a record of one gives.
pub open spec fn range_of(value: JsonView) -> Result<LsifRange, Seq<char>> {
    match value.field("start"@) {
        None => Err("LSIF range is missing start"@),
        Some(start) => match value.field("end"@) {
            None => Err("LSIF range is missing end"@),
            Some(end) => match needed_number(start, "line"@) {
                Err(e) => Err(e),
                Ok(start_line) => match needed_number(end, "line"@) {
                    Err(e) => Err(e),
                    Ok(end_line) => match needed_number(end, "character"@) {
                        Err(e) => Err(e),
                        Ok(end_character) => Ok(
                            LsifRange {
                                start_line: start_line as u32,
                                end_line: end_line as u32,
                                end_character: end_character as u32,
                            },
                        ),
                    },
                },
            },
        },
    }
}

/// A graph with a vertex.
pub open spec fn with_vertex(g: LsifView, value: JsonView) -> Result<LsifView, Seq<char>> {
    match value.text_field("label"@) {
        None => Ok(g),
        Some(label) => match needed_number(value, "id"@) {
            Err(e) => Err(e),
            Ok(id) => if label == "document"@ {
                match value.text_field("uri"@) {
                    Some(uri) => Ok(LsifView { documents: g.documents.insert(id, uri), ..g }),
                    None => Ok(g),
                }
            } else if label == "range"@ {
                match range_of(value) {
                    Ok(range) => Ok(LsifView { ranges: g.ranges.insert(id, range), ..g }),
                    Err(e) => Err(e),
                }
            } else if label == "moniker"@ {
                match value.text_field("identifier"@) {
                    Some(identifier) => Ok(
                        LsifView { monikers: g.monikers.insert(id, identifier), ..g },
                    ),
                    None => Ok(g),
                }
            } else {
                Ok(g)
            },
        },
    }
}

/// The ends of an edge from one to one.
pub open spec fn ends_of(value: JsonView) -> Result<(u64, u64), Seq<char>> {
    match needed_number(value, "outV"@) {
        Err(e) => Err(e),
        Ok(out) => match needed_number(value, "inV"@) {
            Err(e) => Err(e),
            Ok(into) => Ok((out, into)),
        },
    }
}

/// A map with one value at each of several keys.
pub open spec fn with_all(m: Map<u64, u64>, keys: Seq<u64>, value: u64) -> Map<u64, u64>
    decreases keys.len(),
{
    if keys.len() == 0 {
        m
    } else {
        with_all(m, keys.drop_last(), value).insert(keys.last(), value)
    }
}

/// The ranges that a result has.
pub open spec fn items_at(g: LsifView, id: u64) -> ItemsView {
    if g.items.dom().contains(id) {
        g.items[id]
    } else {
        ItemsView { definitions: Seq::empty(), references: Seq::empty() }
    }
}

/// A graph with an edge to the ranges of a result.
pub open spec fn with_item(g: LsifView, value: JsonView) -> Result<LsifView, Seq<char>> {
    match needed_number(value, "outV"@) {
        Err(e) => Err(e),
        Ok(result) => match needed_number(value, "document"@) {
            Err(e) => Err(e),
            Ok(document_id) => match needed_numbers(value, "inVs"@) {
                Err(e) => Err(e),
                Ok(ids) => {
                    let ranges = ids.map_values(
                        |range_id: u64| RangeRef { document_id, range_id },
                    );
                    let now = items_at(g, result);
                    let property = value.text_field("property"@);
                    let items = if property == Some("references"@) {
                        ItemsView { references: now.references + ranges, ..now }
                    } else if property == Some("definitions"@) || property is None {
                        ItemsView { definitions: now.definitions + ranges, ..now }
                    } else {
                        now
                    };
                    Ok(LsifView { items: g.items.insert(result, items), ..g })
                },
            },
        },
    }
}

/// A graph with an edge.
pub open spec fn with_edge(g: LsifView, value: JsonView) -> Result<LsifView, Seq<char>> {
    match value.text_field("label"@) {
        None => Ok(g),
        Some(label) => if label == "contains"@ {
            match needed_number(value, "outV"@) {
                Err(e) => Err(e),
                Ok(document) => match needed_numbers(value, "inVs"@) {
                    Err(e) => Err(e),
                    Ok(ids) => Ok(
                        LsifView {
                            range_documents: with_all(g.range_documents, ids, document),
                            ..g
                        },
                    ),
                },
            }
        } else if label == "item"@ {
            with_item(g, value)
        } else if label == "next"@ {
            match ends_of(value) {
                Err(e) => Err(e),
                Ok(ends) => Ok(
                    LsifView {
                        range_result_sets: g.range_result_sets.insert(ends.0, ends.1),
                        ..g
                    },
                ),
            }
        } else if label == "textDocument/definition"@ {
            match ends_of(value) {
                Err(e) => Err(e),
                Ok(ends) => Ok(
                    LsifView {
                        result_definitions: g.result_definitions.insert(ends.0, ends.1),
                        ..g
                    },
                ),
            }
        } else if label == "textDocument/references"@ {
            match ends_of(value) {
                Err(e) => Err(e),
                Ok(ends) => Ok(
                    LsifView {
                        result_references: g.result_references.insert(ends.0, ends.1),
                        ..g
                    },
                ),
            }
        } else if label == "moniker"@ {
            match ends_of(value) {
                Err(e) => Err(e),
                Ok(ends) => Ok(
                    LsifView { result_monikers: g.result_monikers.insert(ends.0, ends.1), ..g },
                ),
            }
        } else {
            Ok(g)
        },
    }
}

/// A graph with a record.
pub open spec fn with_record(g: LsifView, value: JsonView) -> Result<LsifView, Seq<char>> {
    let kind = value.text_field("type"@);
    if kind == Some("vertex"@) {
        with_vertex(g, value)
    } else if kind == Some("edge"@) {
        with_edge(g, value)
    } else {
        Ok(g)
    }
}

/// Whether what came of a change to a graph is what is due: the graph changed, or an error and
/// the graph as it was.
pub open spec fn changed(
    r: Result<(), String>,
    before: LsifView,
    after: LsifView,
    due: Result<LsifView, Seq<char>>,
) -> bool {
    match (r, due) {
        (Ok(_), Ok(g)) => after == g,
        (Err(message), Err(words)) => message@ == words && after == before,
        _ => false,
    }
}

/// The range that a record of one gives.
fn read_range(value: &Json) -> (r: Result<LsifRange, String>)
    ensures
        same_result(r, range_of(value@)),
{
    let start = match value.get("start") {
        Some(start) => start,
        None => return Err(owned("LSIF range is missing start")),
    };
    let end = match value.get("end") {
        Some(end) => end,
        None => return Err(owned("LSIF range is missing end")),
    };
    match required_u64(start, "line") {
        Err(e) => Err(e),
        Ok(start_line) => match required_u64(end, "line") {
            Err(e) => Err(e),
            Ok(end_line) => match required_u64(end, "character") {
                Err(e) => Err(e),
                Ok(end_character) => Ok(
                    LsifRange {
                        start_line: #[verifier::truncate]
                        (start_line as u32),
                        end_line: #[verifier::truncate]
                        (end_line as u32),
                        end_character: #[verifier::truncate]
                        (end_character as u32),
                    },
                ),
            },
        },
    }
}

/// The ends of an edge from one to one.
fn read_ends(value: &Json) -> (r: Result<(u64, u64), String>)
    ensures
        same_result(r, ends_of(value@)),
{
    match required_u64(value, "outV") {
        Err(e) => Err(e),
        Ok(out) => match required_u64(value, "inV") {
            Err(e) => Err(e),
            Ok(into) => Ok((out, into)),
        },
    }
}

impl LsifGraph {
    /// The invariant: each map is ordered by its keys.
    pub open spec fn wf(&self) -> bool {
        &&& self.documents.wf()
        &&& self.ranges.wf()
        &&& self.range_documents.wf()
        &&& self.range_result_sets.wf()
        &&& self.result_definitions.wf()
        &&& self.result_references.wf()
        &&& self.result_monikers.wf()
        &&& self.monikers.wf()
        &&& self.items.wf()
    }

    /// A graph that says nothing.
    pub fn new() -> (r: Self)
        ensures
            r.wf(),
            r@ == empty_lsif(),
    {
        LsifGraph {
            documents: OrderedMap::new(),
            ranges: OrderedMap::new(),
            range_documents: OrderedMap::new(),
            range_result_sets: OrderedMap::new(),
            result_definitions: OrderedMap::new(),
            result_references: OrderedMap::new(),
            result_monikers: OrderedMap::new(),
            monikers: OrderedMap::new(),
            items: OrderedMap::new(),
        }
    }

    /// Takes a vertex in.
    fn parse_vertex(&mut self, value: &Json) -> (r: Result<(), String>)
        requires
            old(self).wf(),
        ensures
            final(self).wf(),
            changed(r, old(self)@, final(self)@, with_vertex(old(self)@, value@)),
    {
        let label = match value.text_field("label") {
            Some(label) => label,
            None => return Ok(()),
        };
        let id = match required_u64(value, "id") {
            Ok(id) => id,
            Err(e) => return Err(e),
        };
        if same_text(label, "document") {
            if let Some(uri) = value.text_field("uri") {
                self.documents.insert(id, owned(uri));
            }
        } else if same_text(label, "range") {
            match read_range(value) {
                Ok(range) => self.ranges.insert(id, range),
                Err(e) => return Err(e),
            }
        } else if same_text(label, "moniker") {
            if let Some(identifier) = value.text_field("identifier") {
                self.monikers.insert(id, owned(identifier));
            }
        }
        Ok(())
    }

    /// Takes an edge to the ranges of a result in.
    fn parse_item_edge(&mut self, value: &Json) -> (r: Result<(), String>)
        requires
            old(self).wf(),
        ensures
            final(self).wf(),
            changed(r, old(self)@, final(self)@, with_item(old(self)@, value@)),
    {
        let result = match required_u64(value, "outV") {
            Ok(id) => id,
            Err(e) => return Err(e),
        };
        let document_id = match required_u64(value, "document") {
            Ok(id) => id,
            Err(e) => return Err(e),
        };
        let ids = match required_u64_array(value, "inVs") {
            Ok(ids) => ids,
            Err(e) => return Err(e),
        };
        let ranges = ranges_in(document_id, &ids);
        let mut items = self.items_of(result);
        let ghost now = items@;
        match value.text_field("property") {
            Some(property) => {
                if same_text(property, "references") {
                    extend(&mut items.references, &ranges);
                } else if same_text(property, "definitions") {
                    extend(&mut items.definitions, &ranges);
                }
            },
            None => extend(&mut items.definitions, &ranges),
        }
        self.items.insert(result, items);
        Ok(())
    }

    /// The ranges that a result has.
    fn items_of(&self, id: u64) -> (r: LsifItems)
        requires
            self.wf(),
        ensures
            r@ == items_at(self@, id),
    {
        let mut items = LsifItems { definitions: Vec::new(), references: Vec::new() };
        if let Some(now) = self.items.get(&id) {
            extend(&mut items.definitions, &now.definitions);
            extend(&mut items.references, &now.references);
            assert(items@ =~= now@);
        }
        items
    }

    /// Takes an edge in.
    fn parse_edge(&mut self, value: &Json) -> (r: Result<(), String>)
        requires
            old(self).wf(),
        ensures
            final(self).wf(),
            changed(r, old(self)@, final(self)@, with_edge(old(self)@, value@)),
    {
        let label = match value.text_field("label") {
            Some(label) => label,
            None => return Ok(()),
        };
        if same_text(label, "contains") {
            let document = match required_u64(value, "outV") {
                Ok(id) => id,
                Err(e) => return Err(e),
            };
            let ids = match required_u64_array(value, "inVs") {
                Ok(ids) => ids,
                Err(e) => return Err(e),
            };
            insert_all(&mut self.range_documents, &ids, document);
            return Ok(());
        }
        if same_text(label, "item") {
            return self.parse_item_edge(value);
        }
        if !(same_text(label, "next") || same_text(label, "textDocument/definition") || same_text(
            label,
            "textDocument/references",
        ) || same_text(label, "moniker")) {
            return Ok(());
        }
        let ends = match read_ends(value) {
            Ok(ends) => ends,
            Err(e) => return Err(e),
        };
        if same_text(label, "next") {
            self.range_result_sets.insert(ends.0, ends.1);
        } else if same_text(label, "textDocument/definition") {
            self.result_definitions.insert(ends.0, ends.1);
        } else if same_text(label, "textDocument/references") {
            self.result_references.insert(ends.0, ends.1);
        } else {
            self.result_monikers.insert(ends.0, ends.1);
        }
        Ok(())
    }

    /// Takes a record in.
    pub fn add_record(&mut self, value: &Json) -> (r: Result<(), String>)
        requires
            old(self).wf(),
        ensures
            final(self).wf(),
            changed(r, old(self)@, final(self)@, with_record(old(self)@, value@)),
    {
        match value.text_field("type") {
            Some(kind) => if same_text(kind, "vertex") {
                self.parse_vertex(value)
            } else if same_text(kind, "edge") {
                self.parse_edge(value)
            } else {
                Ok(())
            },
            None => Ok(()),
        }
    }
}

/// Ranges of one document.
fn ranges_in(document_id: u64, ids: &Vec<u64>) -> (r: Vec<RangeRef>)
    ensures
        r@ == ids@.map_values(|range_id: u64| RangeRef { document_id, range_id }),
{
    let mut r: Vec<RangeRef> = Vec::new();
    let mut i: usize = 0;
    while i < ids.len()
        invariant
            i <= ids.len(),
            r.len() == i,
            forall|j: int|
                0 <= j < i ==> #[trigger] r@[j] == (RangeRef { document_id, range_id: ids@[j] }),
        decreases ids.len() - i,
    {
        r.push(RangeRef { document_id, range_id: ids[i] });
        i += 1;
    }
    assert(r@ =~= ids@.map_values(|range_id: u64| RangeRef { document_id, range_id }));
    r
}

/// Appends ranges.
fn extend(list: &mut Vec<RangeRef>, more: &Vec<RangeRef>)
    ensures
        final(list)@ == old(list)@ + more@,
{
    let ghost start = list@;
    let mut i: usize = 0;
    while i < more.len()
        invariant
            i <= more.len(),
            list@ =~= start + more@.take(i as int),
        decreases more.len() - i,
    {
        list.push(more[i]);
        i += 1;
    }
    assert(more@.take(i as int) =~= more@);
}

/// Puts one value at each of several keys.
fn insert_all(m: &mut OrderedMap<u64, u64>, keys: &Vec<u64>, value: u64)
    requires
        old(m).wf(),
    ensures
        final(m).wf(),
        final(m)@ == with_all(old(m)@, keys@, value),
{
    let ghost start = m@;
    let mut i: usize = 0;
    while i < keys.len()
        invariant
            i <= keys.len(),
            m.wf(),
            m@ == with_all(start, keys@.take(i as int), value),
        decreases keys.len() - i,
    {
        m.insert(keys[i], value);
        i += 1;
        assert(keys@.take(i as int).drop_last() =~= keys@.take(i - 1));
    }
    assert(keys@.take(i as int) =~= keys@);
}

// ---------------------------------------------------------------------------
// Dumps
// ---------------------------------------------------------------------------

/// A graph with what a line says, where `read` is what is made of the text of the line.
pub open spec fn with_line(
    g: LsifView,
    line: Seq<char>,
    number: nat,
    read: Result<JsonView, Seq<char>>,
) -> Result<LsifView, Seq<char>> {
    if text::trimmed(line).len() == 0 {
        Ok(g)
    } else {
        match read {
            Ok(value) => with_record(g, value),
            Err(message) => Err(
                "failed to parse LSIF JSON line "@ + text::decimal_text(number) + ": "@ + message,
            ),
        }
    }
}

/// What the first lines of a dump say.
pub open spec fn lsif_of_lines(lines: Seq<Seq<char>>, n: nat) -> Result<LsifView, Seq<char>>
    decreases n,
{
    if n == 0 {
        Ok(empty_lsif())
    } else {
        match lsif_of_lines(lines, (n - 1) as nat) {
            Err(e) => Err(e),
            Ok(g) => {
                let line = lines[n - 1];
                with_line(g, line, n, json::json_of_text(text::trimmed(line)))
            },
        }
    }
}

/// What a dump says.
pub open spec fn lsif_of_text(lsif: Seq<char>) -> Result<LsifView, Seq<char>> {
    let lines = text::text_lines(lsif);
    lsif_of_lines(lines, lines.len())
}

proof fn lemma_error_stays(lines: Seq<Seq<char>>, n: nat, m: nat)
    requires
        n <= m,
        lsif_of_lines(lines, n) is Err,
    ensures
        lsif_of_lines(lines, m) == lsif_of_lines(lines, n),
    decreases m,
{
    if n < m {
        lemma_error_stays(lines, n, (m - 1) as nat);
    }
}

/// Reads a dump.
pub fn parse_lsif(lsif: &str) -> (r: Result<LsifGraph, String>)
    ensures
        match r {
            Ok(graph) => graph.wf() && lsif_of_text(lsif@) == Ok::<LsifView, Seq<char>>(graph@),
            Err(message) => lsif_of_text(lsif@) == Err::<LsifView, Seq<char>>(message@),
        },
{
    let lines = lines_of(lsif);
    let ghost all = text::texts(lines@);
    let mut graph = LsifGraph::new();
    let mut i: usize = 0;
    while i < lines.len()
        invariant
            i <= lines.len(),
            all == text::texts(lines@),
            all == text::text_lines(lsif@),
            graph.wf(),
            lsif_of_lines(all, i as nat) == Ok::<LsifView, Seq<char>>(graph@),
        decreases lines.len() - i,
    {
        let line = trim(lines[i].as_str());
        assert(all[i as int] == lines@[i as int]@);
        if !line.as_str().is_empty() {
            match parse_json(line.as_str()) {
                Err(message) => {
                    let number = decimal((i + 1) as u64);
                    proof {
                        lemma_error_stays(all, (i + 1) as nat, all.len());
                    }
                    return Err(
                        cat4(
                            "failed to parse LSIF JSON line ",
                            number.as_str(),
                            ": ",
                            message.as_str(),
                        ),
                    );
                },
                Ok(value) => {
                    if let Err(message) = graph.add_record(&value) {
                        proof {
                            lemma_error_stays(all, (i + 1) as nat, all.len());
                        }
                        return Err(message);
                    }
                },
            }
        }
        i += 1;
    }
    Ok(graph)
}

} // verus!
