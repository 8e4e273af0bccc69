//! Retrieval evaluation: what each case asks for, what it observes, and whether it passes.
use vstd::prelude::*;
use vstd::string::*;
use crate::json::{Json, JsonView};
use crate::maintenance_steps::append_texts;
use crate::order::TextSet;
use crate::records::{CodeSymbol, Memory};
use crate::review::{ReviewApplyReport, ReviewDecisionInput};
use crate::text::{
    cat3,
    cat5,
    cat6,
    chars_of,
    join_texts,
    lowercase,
    owned,
    same_text,
    trim,
};
use crate::{json, maintenance_steps, order, text};

verus! {

// ---------------------------------------------------------------------------
// Cases
// ---------------------------------------------------------------------------

/// A case of an evaluation: a question, and what its answer must hold and must not.
#[derive(Debug)]
pub struct EvalCase {
    pub name: Option<String>,
    pub target: String,
    pub project_id: Option<String>,
    pub query: String,
    pub semantic_action: Option<String>,
    pub as_of: Option<String>,
    pub decisions: Vec<ReviewDecisionInput>,
    pub expected_contains: Vec<String>,
    pub forbidden_contains: Vec<String>,
    pub expected_ids: Vec<String>,
    pub forbidden_ids: Vec<String>,
    pub min_results: Option<usize>,
    pub max_latency_ms: Option<u64>,
    pub max_estimated_tokens: Option<usize>,
}

/// Cases under a name.
#[derive(Debug)]
pub struct EvalSuite {
    pub name: Option<String>,
    pub cases: Vec<EvalCase>,
}

/// What a case is asked of where it does not say.
pub fn default_eval_target() -> (r: String)
    ensures
        r@ == "memory"@,
{
    owned("memory")
}

/// The project that a case is asked in.
pub fn case_project(case: &EvalCase, default_project_id: &str) -> (r: String)
    ensures
        r@ == (match case.project_id {
            Some(project) => project@,
            None => default_project_id@,
        }),
{
    match &case.project_id {
        Some(project) => owned(project.as_str()),
        None => owned(default_project_id),
    }
}

/// What a case is asked of, however it is written.
pub open spec fn target_text(case: EvalCase) -> Seq<char> {
    text::lowered(text::trimmed(case.target@))
}

/// What a case is asked of.
pub fn case_target(case: &EvalCase) -> (r: String)
    ensures
        r@ == target_text(*case),
{
    let target = trim(case.target.as_str());
    lowercase(target.as_str())
}

/// What is to be looked up for a case.
#[derive(Debug)]
pub enum EvalRequest {
    Memories,
    Code,
    MemoriesAndCode,
    Review,
    Semantic(String),
}

/// The semantic action of a case.
pub open spec fn semantic_action(case: EvalCase) -> Seq<char> {
    match case.semantic_action {
        Some(action) => action@,
        None => "retrieval_quality"@,
    }
}

/// What is to be looked up for a case.
pub fn eval_request(case: &EvalCase, target: &str) -> (r: Result<EvalRequest, String>)
    ensures
        target@ == "memory"@ ==> r == Ok::<EvalRequest, String>(EvalRequest::Memories),
        target@ == "code"@ ==> r == Ok::<EvalRequest, String>(EvalRequest::Code),
        target@ == "context"@ ==> r == Ok::<EvalRequest, String>(EvalRequest::MemoriesAndCode),
        target@ == "review_apply"@ && case.decisions@.len() > 0 ==> r == Ok::<EvalRequest, String>(
            EvalRequest::Review,
        ),
        target@ == "review_apply"@ && case.decisions@.len() == 0 ==> (r matches Err(message)
            && message@ == "review_apply eval case requires at least one decision"@),
        target@ == "semantic"@ ==> (r matches Ok(EvalRequest::Semantic(action)) && action@
            == semantic_action(*case)),
        r is Err <==> (target@ == "review_apply"@ && case.decisions@.len() == 0)
            || !is_eval_target(target@),
        !is_eval_target(target@) ==> (r matches Err(message) && message@
            == "invalid eval target `"@ + target@
            + "`; use memory, code, context, review_apply, or semantic"@),
{
    proof {
        reveal_strlit("memory");
        reveal_strlit("code");
        reveal_strlit("context");
        reveal_strlit("review_apply");
        reveal_strlit("semantic");
        assert("memory"@[0] != "code"@[0]);
        assert("context"@.len() != "code"@.len());
        assert("review_apply"@[0] == 'r' && "semantic"@[0] == 's' && "memory"@[0] == 'm'
            && "code"@[0] == 'c' && "context"@[0] == 'c');
    }
    if same_text(target, "memory") {
        Ok(EvalRequest::Memories)
    } else if same_text(target, "code") {
        Ok(EvalRequest::Code)
    } else if same_text(target, "context") {
        Ok(EvalRequest::MemoriesAndCode)
    } else if same_text(target, "review_apply") {
        if case.decisions.len() == 0 {
            Err(owned("review_apply eval case requires at least one decision"))
        } else {
            Ok(EvalRequest::Review)
        }
    } else if same_text(target, "semantic") {
        match &case.semantic_action {
            Some(action) => Ok(EvalRequest::Semantic(owned(action.as_str()))),
            None => Ok(EvalRequest::Semantic(owned("retrieval_quality"))),
        }
    } else {
        Err(
            cat3(
                "invalid eval target `",
                target,
                "`; use memory, code, context, review_apply, or semantic",
            ),
        )
    }
}

/// Whether cases can be asked of something.
pub open spec fn is_eval_target(target: Seq<char>) -> bool {
    target == "memory"@ || target == "code"@ || target == "context"@ || target == "review_apply"@
        || target == "semantic"@
}

// ---------------------------------------------------------------------------
// Observations
// ---------------------------------------------------------------------------

/// What was found for a case: how much, its text, and the best of it.
#[derive(Debug)]
pub struct EvalObserved {
    pub hits: usize,
    pub haystack: String,
    pub top_ids: Vec<String>,
}

impl EvalObserved {
    /// How many characters were found, by which its tokens are estimated.
    pub fn haystack_chars(&self) -> (r: usize)
        ensures
            r == self.haystack@.len(),
    {
        chars_of(self.haystack.as_str()).len()
    }
}

/// The text of a memory.
pub open spec fn memory_text(m: Memory) -> Seq<char> {
    m.kind@ + "\n"@ + m.scope@ + "\n"@ + m.body@ + "\n"@ + text::joined(
        text::texts(m.tags@),
        " "@,
    )
}

/// The text of a memory.
pub fn memory_eval_text(memory: &Memory) -> (r: String)
    ensures
        r@ == memory_text(*memory),
{
    let tags = join_texts(memory.tags.as_slice(), " ");
    let mut r = cat5(
        memory.kind.as_str(),
        "\n",
        memory.scope.as_str(),
        "\n",
        memory.body.as_str(),
    );
    r.append("\n");
    r.append(tags.as_str());
    r
}

/// The text of a symbol.
pub open spec fn symbol_text(s: CodeSymbol) -> Seq<char> {
    s.language@ + "\n"@ + s.kind@ + "\n"@ + s.name@ + "\n"@ + s.signature@ + "\n"@ + s.body@
}

/// The text of a symbol.
pub fn code_eval_text(symbol: &CodeSymbol) -> (r: String)
    ensures
        r@ == symbol_text(*symbol),
{
    let mut r = cat6(
        symbol.language.as_str(),
        "\n",
        symbol.kind.as_str(),
        "\n",
        symbol.name.as_str(),
        "\n",
    );
    r.append(symbol.signature.as_str());
    r.append("\n");
    r.append(symbol.body.as_str());
    r
}

/// The texts of memories and symbols.
pub open spec fn found_texts(memories: Seq<Memory>, code: Seq<CodeSymbol>) -> Seq<Seq<char>> {
    memories.map_values(|m: Memory| memory_text(m)) + code.map_values(
        |s: CodeSymbol| symbol_text(s),
    )
}

/// The identifiers of memories and symbols.
pub open spec fn found_ids(memories: Seq<Memory>, code: Seq<CodeSymbol>) -> Seq<Seq<char>> {
    memories.map_values(|m: Memory| m.id@) + code.map_values(|s: CodeSymbol| s.id@)
}

/// What is observed of memories and symbols that were found, in their order.
pub fn observe_context(memories: &Vec<Memory>, code: &Vec<CodeSymbol>) -> (r: EvalObserved)
    requires
        memories.len() + code.len() <= usize::MAX,
    ensures
        r.hits == memories.len() + code.len(),
        r.haystack@ == text::joined(found_texts(memories@, code@), "\n"@),
        text::texts(r.top_ids@) == found_ids(memories@, code@),
{
    let mut texts: Vec<String> = Vec::new();
    let mut ids: Vec<String> = Vec::new();
    let ghost all_texts = found_texts(memories@, code@);
    let ghost all_ids = found_ids(memories@, code@);
    let mut i: usize = 0;
    while i < memories.len()
        invariant
            i <= memories.len(),
            texts.len() == i,
            ids.len() == i,
            all_texts == found_texts(memories@, code@),
            all_ids == found_ids(memories@, code@),
            forall|j: int| 0 <= j < i ==> (#[trigger] texts@[j])@ == all_texts[j],
            forall|j: int| 0 <= j < i ==> (#[trigger] ids@[j])@ == all_ids[j],
        decreases memories.len() - i,
    {
        texts.push(memory_eval_text(&memories[i]));
        ids.push(owned(memories[i].id.as_str()));
        i += 1;
    }
    let mut k: usize = 0;
    while k < code.len()
        invariant
            k <= code.len(),
            texts.len() == memories.len() + k,
            ids.len() == memories.len() + k,
            all_texts == found_texts(memories@, code@),
            all_ids == found_ids(memories@, code@),
            forall|j: int| 0 <= j < memories.len() + k ==> (#[trigger] texts@[j])@ == all_texts[j],
            forall|j: int| 0 <= j < memories.len() + k ==> (#[trigger] ids@[j])@ == all_ids[j],
        decreases code.len() - k,
    {
        texts.push(code_eval_text(&code[k]));
        ids.push(owned(code[k].id.as_str()));
        k += 1;
    }
    assert(text::texts(texts@) =~= all_texts);
    assert(text::texts(ids@) =~= all_ids);
    EvalObserved {
        hits: memories.len() + code.len(),
        haystack: join_texts(texts.as_slice(), "\n"),
        top_ids: ids,
    }
}

/// What is observed of memories that were found.
pub fn observe_memories(memories: &Vec<Memory>) -> (r: EvalObserved)
    ensures
        r.hits == memories.len(),
        r.haystack@ == text::joined(memories@.map_values(|m: Memory| memory_text(m)), "\n"@),
        text::texts(r.top_ids@) == memories@.map_values(|m: Memory| m.id@),
{
    let none: Vec<CodeSymbol> = Vec::new();
    let r = observe_context(memories, &none);
    assert(found_texts(memories@, none@) =~= memories@.map_values(|m: Memory| memory_text(m)));
    assert(found_ids(memories@, none@) =~= memories@.map_values(|m: Memory| m.id@));
    r
}

/// What is observed of symbols that were found.
pub fn observe_code(code: &Vec<CodeSymbol>) -> (r: EvalObserved)
    ensures
        r.hits == code.len(),
        r.haystack@ == text::joined(code@.map_values(|s: CodeSymbol| symbol_text(s)), "\n"@),
        text::texts(r.top_ids@) == code@.map_values(|s: CodeSymbol| s.id@),
{
    let none: Vec<Memory> = Vec::new();
    let r = observe_context(&none, code);
    assert(found_texts(none@, code@) =~= code@.map_values(|s: CodeSymbol| symbol_text(s)));
    assert(found_ids(none@, code@) =~= code@.map_values(|s: CodeSymbol| s.id@));
    r
}

/// What is observed of a review, where `haystack` is the report in writing.
pub fn observe_review(report: &ReviewApplyReport, haystack: String) -> (r: EvalObserved)
    ensures
        r.hits == report.decisions.len(),
        r.haystack == haystack,
        text::texts(r.top_ids@) == report.decisions@.map_values(|d: ReviewDecisionInput| d.id@),
{
    let mut ids: Vec<String> = Vec::new();
    let mut i: usize = 0;
    while i < report.decisions.len()
        invariant
            i <= report.decisions.len(),
            ids.len() == i,
            forall|j: int| 0 <= j < i ==> (#[trigger] ids@[j])@ == report.decisions@[j].id@,
        decreases report.decisions.len() - i,
    {
        ids.push(owned(report.decisions[i].id.as_str()));
        i += 1;
    }
    assert(text::texts(ids@) =~= report.decisions@.map_values(|d: ReviewDecisionInput| d.id@));
    EvalObserved { hits: report.decisions.len(), haystack, top_ids: ids }
}

// ---------------------------------------------------------------------------
// Semantic reports
// ---------------------------------------------------------------------------

/// The array at a field of a report, or at a field of a field.
pub open spec fn values_at(report: JsonView, outer: Option<Seq<char>>, name: Seq<char>) -> Option<
    Seq<JsonView>,
> {
    match outer {
        None => report.values_field(name),
        Some(field) => match report.field(field) {
            Some(inner) => inner.values_field(name),
            None => None,
        },
    }
}

/// The array at a field of a field of a report.
fn inner_values<'a>(report: &'a Json, outer: &str, name: &str) -> (r: Option<&'a Vec<Json>>)
    ensures
        r is Some <==> values_at(report@, Some(outer@), name@) is Some,
        r matches Some(values) ==> values_at(report@, Some(outer@), name@) == Some(
            json::json_views(values@),
        ),
{
    match report.get(outer) {
        Some(inner) => inner.values_field(name),
        None => None,
    }
}

/// The length of an array, where there is one.
pub open spec fn length_at(report: JsonView, outer: Option<Seq<char>>, name: Seq<char>) -> nat {
    match values_at(report, outer, name) {
        Some(values) => values.len(),
        None => 0,
    }
}

/// The greater of two numbers.
pub open spec fn greater(a: nat, b: nat) -> nat {
    if a < b {
        b
    } else {
        a
    }
}

/// How much a semantic report holds: the length of the longest of the arrays that hold results.
pub open spec fn semantic_hits(report: JsonView) -> nat {
    let a = length_at(report, None, "top_memory_ids"@);
    let b = greater(a, length_at(report, Some("baseline"@), "memory_ids"@));
    let c = greater(b, length_at(report, None, "memories"@));
    let d = greater(c, length_at(report, None, "leave_one_out"@));
    let e = greater(d, length_at(report, Some("hard_negatives"@), "candidates"@));
    let f = greater(e, length_at(report, Some("recommended_policy"@), "reasons"@));
    greater(f, length_at(report, None, "retrieval_events"@))
}

/// The greater of a number and the length of an array.
fn at_least(n: usize, values: Option<&Vec<Json>>) -> (r: usize)
    ensures
        r == greater(
            n as nat,
            match values {
                Some(values) => values@.len(),
                None => 0,
            },
        ),
{
    match values {
        Some(values) => if n < values.len() {
            values.len()
        } else {
            n
        },
        None => n,
    }
}

/// How much a semantic report holds.
pub fn semantic_eval_hit_count(report: &Json) -> (r: usize)
    ensures
        r == semantic_hits(report@),
{
    let a = at_least(0, report.values_field("top_memory_ids"));
    let b = at_least(a, inner_values(report, "baseline", "memory_ids"));
    let c = at_least(b, report.values_field("memories"));
    let d = at_least(c, report.values_field("leave_one_out"));
    let e = at_least(d, inner_values(report, "hard_negatives", "candidates"));
    let f = at_least(e, inner_values(report, "recommended_policy", "reasons"));
    at_least(f, report.values_field("retrieval_events"))
}

/// The texts in an array of a report.
pub open spec fn texts_at(report: JsonView, outer: Option<Seq<char>>, name: Seq<char>) -> Set<
    Seq<char>,
> {
    match values_at(report, outer, name) {
        Some(values) => maintenance_steps::texts_among(values).to_set(),
        None => Set::empty(),
    }
}

/// Whether an object of an array has an identifier.
pub open spec fn has_id(values: Seq<JsonView>, id: Seq<char>) -> bool {
    exists|i: int|
        0 <= i < values.len() && (#[trigger] values[i]).text_field("id"@) == Some(id)
}

/// The identifiers of the objects in an array of a report.
pub open spec fn ids_at(report: JsonView, outer: Option<Seq<char>>, name: Seq<char>) -> Set<
    Seq<char>,
> {
    match values_at(report, outer, name) {
        Some(values) => Set::new(|id: Seq<char>| has_id(values, id)),
        None => Set::empty(),
    }
}

/// The identifiers that a semantic report speaks of.
pub open spec fn semantic_ids(report: JsonView) -> Set<Seq<char>> {
    texts_at(report, None, "top_memory_ids"@) + texts_at(
        report,
        Some("baseline"@),
        "memory_ids"@,
    ) + texts_at(report, Some("suggested_eval_case"@), "expected_ids"@) + ids_at(
        report,
        None,
        "memories"@,
    ) + ids_at(report, Some("hard_negatives"@), "candidates"@) + ids_at(
        report,
        None,
        "selected_memories"@,
    )
}

/// Adds the texts of an array.
fn collect_string_array(
    values: Option<&Vec<Json>>,
    ids: &mut TextSet,
    Ghost(report): Ghost<JsonView>,
    Ghost(outer): Ghost<Option<Seq<char>>>,
    Ghost(name): Ghost<Seq<char>>,
)
    requires
        old(ids).wf(),
        values is Some <==> values_at(report, outer, name) is Some,
        values matches Some(v) ==> values_at(report, outer, name) == Some(json::json_views(v@)),
    ensures
        final(ids).wf(),
        final(ids)@ == old(ids)@ + texts_at(report, outer, name),
{
    let ghost before = ids@;
    match values {
        None => {
            assert(ids@ =~= before + texts_at(report, outer, name));
        },
        Some(values) => {
            let mut list: Vec<String> = Vec::new();
            append_texts(values, &mut list);
            let ghost found = maintenance_steps::texts_among(json::json_views(values@));
            assert(text::texts(list@) =~= found);
            let mut i: usize = 0;
            assert(ids@ =~= before + found.take(0).to_set());
            while i < list.len()
                invariant
                    i <= list.len(),
                    found == text::texts(list@),
                    ids.wf(),
                    ids@ == before + found.take(i as int).to_set(),
                decreases list.len() - i,
            {
                ids.insert(owned(list[i].as_str()));
                proof {
                    assert(found.take(i + 1) =~= found.take(i as int).push(found[i as int]));
                    lemma_push_to_set(found.take(i as int), found[i as int]);
                    assert(ids@ =~= before + found.take(i + 1).to_set());
                }
                i += 1;
            }
            assert(found.take(i as int) =~= found);
        },
    }
}

proof fn lemma_push_to_set(s: Seq<Seq<char>>, x: Seq<char>)
    ensures
        s.push(x).to_set() == s.to_set().insert(x),
{
    let t = s.push(x);
    assert forall|y: Seq<char>| t.to_set().contains(y) <==> s.to_set().insert(x).contains(y) by {
        if t.contains(y) {
            let i = choose|i: int| 0 <= i < t.len() && t[i] == y;
            if i < s.len() {
                assert(s[i] == y);
            }
        }
        if s.contains(y) {
            let i = choose|i: int| 0 <= i < s.len() && s[i] == y;
            assert(t[i] == y);
        }
        assert(t[s.len() as int] == x);
    }
    assert(t.to_set() =~= s.to_set().insert(x));
}

/// Adds the identifiers of the objects of an array.
fn collect_object_ids(
    values: Option<&Vec<Json>>,
    ids: &mut TextSet,
    Ghost(report): Ghost<JsonView>,
    Ghost(outer): Ghost<Option<Seq<char>>>,
    Ghost(name): Ghost<Seq<char>>,
)
    requires
        old(ids).wf(),
        values is Some <==> values_at(report, outer, name) is Some,
        values matches Some(v) ==> values_at(report, outer, name) == Some(json::json_views(v@)),
    ensures
        final(ids).wf(),
        final(ids)@ == old(ids)@ + ids_at(report, outer, name),
{
    let ghost before = ids@;
    match values {
        None => {
            assert(ids@ =~= before + ids_at(report, outer, name));
        },
        Some(values) => {
            let ghost all = json::json_views(values@);
            let mut i: usize = 0;
            assert(ids@ =~= before + Set::new(|id: Seq<char>| has_id(all.take(0), id)));
            while i < values.len()
                invariant
                    i <= values.len(),
                    all == json::json_views(values@),
                    ids.wf(),
                    ids@ == before + Set::new(|id: Seq<char>| has_id(all.take(i as int), id)),
                decreases values.len() - i,
            {
                let ghost was = ids@;
                assert(all[i as int] == values@[i as int]@);
                if let Some(id) = values[i].text_field("id") {
                    ids.insert(owned(id));
                }
                proof {
                    let now = all.take(i + 1);
                    let then = all.take(i as int);
                    assert forall|id: Seq<char>| has_id(now, id) <==> has_id(then, id)
                        || all[i as int].text_field("id"@) == Some(id) by {
                        if has_id(then, id) {
                            let k = choose|k: int|
                                0 <= k < then.len() && (#[trigger] then[k]).text_field("id"@)
                                    == Some(id);
                            assert(now[k] == then[k]);
                        }
                        if all[i as int].text_field("id"@) == Some(id) {
                            assert(now[i as int] == all[i as int]);
                        }
                        if has_id(now, id) {
                            let k = choose|k: int|
                                0 <= k < now.len() && (#[trigger] now[k]).text_field("id"@)
                                    == Some(id);
                            if k < i {
                                assert(then[k] == now[k]);
                            }
                        }
                    }
                    assert(ids@ =~= before + Set::new(|id: Seq<char>| has_id(now, id)));
                }
                i += 1;
            }
            assert(all.take(i as int) =~= all);
        },
    }
}

/// The identifiers that a semantic report speaks of, each once, in ascending order.
pub fn semantic_eval_top_ids(report: &Json) -> (r: Vec<String>)
    ensures
        text::texts(r@).to_set() == semantic_ids(report@),
        order::texts_ascend(text::texts(r@)),
{
    let mut ids = TextSet::new();
    let ghost v = report@;
    collect_string_array(
        report.values_field("top_memory_ids"),
        &mut ids,
        Ghost(v),
        Ghost(None),
        Ghost("top_memory_ids"@),
    );
    assert(ids@ =~= texts_at(v, None, "top_memory_ids"@));
    collect_string_array(
        inner_values(report, "baseline", "memory_ids"),
        &mut ids,
        Ghost(v),
        Ghost(Some("baseline"@)),
        Ghost("memory_ids"@),
    );
    collect_string_array(
        inner_values(report, "suggested_eval_case", "expected_ids"),
        &mut ids,
        Ghost(v),
        Ghost(Some("suggested_eval_case"@)),
        Ghost("expected_ids"@),
    );
    collect_object_ids(
        report.values_field("memories"),
        &mut ids,
        Ghost(v),
        Ghost(None),
        Ghost("memories"@),
    );
    collect_object_ids(
        inner_values(report, "hard_negatives", "candidates"),
        &mut ids,
        Ghost(v),
        Ghost(Some("hard_negatives"@)),
        Ghost("candidates"@),
    );
    collect_object_ids(
        report.values_field("selected_memories"),
        &mut ids,
        Ghost(v),
        Ghost(None),
        Ghost("selected_memories"@),
    );
    ids.to_list()
}

/// What is observed of a semantic report, where `haystack` is the report in writing.
pub fn observe_semantic(report: &Json, haystack: String) -> (r: EvalObserved)
    ensures
        text::texts(r.top_ids@).to_set() == semantic_ids(report@),
        order::texts_ascend(text::texts(r.top_ids@)),
        r.hits == greater(r.top_ids@.len(), semantic_hits(report@)),
        r.haystack == haystack,
{
    let top_ids = semantic_eval_top_ids(report);
    let count = semantic_eval_hit_count(report);
    let hits: usize = if top_ids.len() < count {
        count
    } else {
        top_ids.len()
    };
    EvalObserved { hits, haystack, top_ids }
}

} // verus!
