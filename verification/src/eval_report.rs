//! Retrieval evaluation: whether a case passes, and what a run of cases comes to.
use vstd::prelude::*;
use vstd::string::*;
use crate::eval::{case_project, case_target, EvalCase, EvalObserved};
use crate::text::{cat2, contains_text, copy_texts, decimal, holds_text, lowercase, owned};
use crate::{eval, text};

verus! {

// ---------------------------------------------------------------------------
// Ranks
// ---------------------------------------------------------------------------

/// Where the identifiers that a case expects stand among the best: what recall, precision, the
/// reciprocal rank and the discounted gain are computed from.
#[derive(Debug)]
pub struct RankQuality {
    pub matched: usize,
    pub expected: usize,
    pub returned: usize,
    pub hit_ranks: Vec<usize>,
    pub ideal_hits: usize,
}

/// The places among the first `n` that hold an expected identifier.
pub open spec fn hit_places(top: Seq<Seq<char>>, expected: Seq<Seq<char>>, n: nat) -> Seq<usize>
    decreases n,
{
    if n == 0 {
        Seq::empty()
    } else {
        let rest = hit_places(top, expected, (n - 1) as nat);
        if expected.contains(top[n - 1]) {
            rest.push((n - 1) as usize)
        } else {
            rest
        }
    }
}

/// The places of hits are those that hold an expected identifier, from the best on: the first of
/// them gives the reciprocal rank.
pub proof fn hit_places_hold_hits(top: Seq<Seq<char>>, expected: Seq<Seq<char>>, n: nat)
    requires
        n <= top.len(),
        n <= usize::MAX,
    ensures
        forall|p: usize| #[trigger]
            hit_places(top, expected, n).contains(p) <==> p < n && expected.contains(
                top[p as int],
            ),
        forall|i: int, j: int|
            0 <= i < j < hit_places(top, expected, n).len() ==> (#[trigger] hit_places(
                top,
                expected,
                n,
            )[i]) < (#[trigger] hit_places(top, expected, n)[j]),
    decreases n,
{
    if n > 0 {
        hit_places_hold_hits(top, expected, (n - 1) as nat);
        let rest = hit_places(top, expected, (n - 1) as nat);
        let all = hit_places(top, expected, n);
        assert forall|p: usize| #[trigger] all.contains(p) <==> p < n && expected.contains(
            top[p as int],
        ) by {
            if all.contains(p) {
                let i = choose|i: int| 0 <= i < all.len() && all[i] == p;
                if i < rest.len() {
                    assert(rest[i] == p);
                    assert(rest.contains(p));
                }
            }
            if p < n && expected.contains(top[p as int]) {
                if p < n - 1 {
                    assert(rest.contains(p));
                    let i = choose|i: int| 0 <= i < rest.len() && rest[i] == p;
                    assert(all[i] == p);
                } else {
                    assert(all[rest.len() as int] == p);
                }
            }
        }
        assert forall|i: int, j: int| 0 <= i < j < all.len() implies (#[trigger] all[i]) < (
        #[trigger] all[j]) by {
            assert(all[i] == rest[i]);
            assert(rest.contains(rest[i]));
        }
    }
}

/// Whether an identifier is among others.
pub open spec fn listed(ids: Seq<Seq<char>>) -> spec_fn(Seq<char>) -> bool {
    |id: Seq<char>| ids.contains(id)
}

/// Whether an identifier is not among others.
pub open spec fn unlisted(ids: Seq<Seq<char>>) -> spec_fn(Seq<char>) -> bool {
    |id: Seq<char>| !ids.contains(id)
}

/// Whether ranks are those of the identifiers that a case expects.
pub open spec fn ranks_of(
    r: RankQuality,
    top: Seq<Seq<char>>,
    expected: Seq<Seq<char>>,
) -> bool {
    &&& r.matched == expected.filter(listed(top)).len()
    &&& r.expected == expected.len()
    &&& r.returned == top.len()
    &&& r.hit_ranks@ == hit_places(top, expected, top.len())
    &&& r.ideal_hits == (if expected.len() < top.len() {
        expected.len()
    } else {
        top.len()
    })
}

/// The places that hold an expected identifier.
fn find_hits(top_ids: &Vec<String>, expected_ids: &Vec<String>) -> (r: Vec<usize>)
    ensures
        r@ == hit_places(text::texts(top_ids@), text::texts(expected_ids@), top_ids@.len()),
{
    let ghost top = text::texts(top_ids@);
    let ghost expected = text::texts(expected_ids@);
    let mut r: Vec<usize> = Vec::new();
    let mut i: usize = 0;
    while i < top_ids.len()
        invariant
            i <= top_ids.len(),
            top == text::texts(top_ids@),
            expected == text::texts(expected_ids@),
            r@ == hit_places(top, expected, i as nat),
        decreases top_ids.len() - i,
    {
        assert(top[i as int] == top_ids@[i as int]@);
        if holds_text(expected_ids.as_slice(), top_ids[i].as_str()) {
            r.push(i);
        }
        i += 1;
    }
    r
}

/// The texts of a list that are, or are not, among others.
fn keep_listed(list: &Vec<String>, others: &Vec<String>, wanted: bool) -> (r: Vec<String>)
    ensures
        text::texts(r@) == text::texts(list@).filter(
            if wanted {
                listed(text::texts(others@))
            } else {
                unlisted(text::texts(others@))
            },
        ),
{
    let ghost all = text::texts(list@);
    let ghost p = if wanted {
        listed(text::texts(others@))
    } else {
        unlisted(text::texts(others@))
    };
    let mut r: Vec<String> = Vec::new();
    let mut i: usize = 0;
    proof {
        reveal(Seq::filter);
        assert(all.take(0) =~= Seq::<Seq<char>>::empty());
        assert(text::texts(r@) =~= Seq::<Seq<char>>::empty());
    }
    while i < list.len()
        invariant
            i <= list.len(),
            all == text::texts(list@),
            p == (if wanted {
                listed(text::texts(others@))
            } else {
                unlisted(text::texts(others@))
            }),
            text::texts(r@) == all.take(i as int).filter(p),
        decreases list.len() - i,
    {
        let ghost before = r@;
        proof {
            assert(all[i as int] == list@[i as int]@);
            assert(all.take(i + 1) =~= all.take(i as int).push(all[i as int]));
            all.take(i as int).lemma_filter_push(all[i as int], p);
        }
        if holds_text(others.as_slice(), list[i].as_str()) == wanted {
            r.push(owned(list[i].as_str()));
            assert(text::texts(r@) =~= text::texts(before).push(all[i as int]));
        }
        i += 1;
    }
    assert(all.take(i as int) =~= all);
    r
}

/// Whether a text occurs in another, whatever the case of their letters.
pub open spec fn found_in(haystack: Seq<char>) -> spec_fn(Seq<char>) -> bool {
    |needle: Seq<char>| text::occurs_in(text::lowered(needle), text::lowered(haystack))
}

/// Whether a text does not occur in another, whatever the case of their letters.
pub open spec fn missing_in(haystack: Seq<char>) -> spec_fn(Seq<char>) -> bool {
    |needle: Seq<char>| !text::occurs_in(text::lowered(needle), text::lowered(haystack))
}

/// The texts of a list that do, or do not, occur in another.
fn keep_found(list: &Vec<String>, haystack: &str, wanted: bool) -> (r: Vec<String>)
    ensures
        text::texts(r@) == text::texts(list@).filter(
            if wanted {
                found_in(haystack@)
            } else {
                missing_in(haystack@)
            },
        ),
{
    let ghost all = text::texts(list@);
    let ghost p = if wanted {
        found_in(haystack@)
    } else {
        missing_in(haystack@)
    };
    let low = lowercase(haystack);
    let mut r: Vec<String> = Vec::new();
    let mut i: usize = 0;
    proof {
        reveal(Seq::filter);
        assert(all.take(0) =~= Seq::<Seq<char>>::empty());
        assert(text::texts(r@) =~= Seq::<Seq<char>>::empty());
    }
    while i < list.len()
        invariant
            i <= list.len(),
            all == text::texts(list@),
            low@ == text::lowered(haystack@),
            p == (if wanted {
                found_in(haystack@)
            } else {
                missing_in(haystack@)
            }),
            text::texts(r@) == all.take(i as int).filter(p),
        decreases list.len() - i,
    {
        let ghost before = r@;
        proof {
            assert(all[i as int] == list@[i as int]@);
            assert(all.take(i + 1) =~= all.take(i as int).push(all[i as int]));
            all.take(i as int).lemma_filter_push(all[i as int], p);
        }
        let needle = lowercase(list[i].as_str());
        if contains_text(low.as_str(), needle.as_str()) == wanted {
            r.push(owned(list[i].as_str()));
            assert(text::texts(r@) =~= text::texts(before).push(all[i as int]));
        }
        i += 1;
    }
    assert(all.take(i as int) =~= all);
    r
}

// ---------------------------------------------------------------------------
// Cases
// ---------------------------------------------------------------------------

/// What came of a case.
#[derive(Debug)]
pub struct EvalCaseReport {
    pub name: String,
    pub target: String,
    pub project_id: String,
    pub query: String,
    pub hits: usize,
    pub passed: bool,
    pub expected_ids: Vec<String>,
    pub forbidden_ids: Vec<String>,
    pub matched_expected_ids: Vec<String>,
    pub missing_expected_ids: Vec<String>,
    pub matched_forbidden_ids: Vec<String>,
    pub ranks: Option<RankQuality>,
    pub latency_ms: u64,
    pub max_latency_ms: Option<u64>,
    pub latency_ok: bool,
    pub estimated_tokens: usize,
    pub max_estimated_tokens: Option<usize>,
    pub token_budget_ok: bool,
    pub missing_expected: Vec<String>,
    pub forbidden_found: Vec<String>,
    pub top_ids: Vec<String>,
}

/// Whether enough was found.
pub open spec fn enough_found(case: EvalCase, hits: usize) -> bool {
    case.min_results matches Some(least) ==> hits >= least
}

/// Whether the answer came in time.
pub open spec fn in_time(case: EvalCase, latency_ms: u64) -> bool {
    case.max_latency_ms matches Some(most) ==> latency_ms <= most
}

/// Whether the answer is short enough.
pub open spec fn in_budget(case: EvalCase, tokens: usize) -> bool {
    case.max_estimated_tokens matches Some(most) ==> tokens <= most
}

/// Whether a case passes: the answer holds all texts and identifiers that are expected and none
/// that is forbidden, and is large enough, in time and within its budget.
pub open spec fn passes(
    case: EvalCase,
    hits: usize,
    haystack: Seq<char>,
    top: Seq<Seq<char>>,
    latency_ms: u64,
    tokens: usize,
) -> bool {
    &&& forall|i: int|
        0 <= i < case.expected_contains@.len() ==> text::occurs_in(
            text::lowered((#[trigger] case.expected_contains@[i])@),
            text::lowered(haystack),
        )
    &&& forall|i: int|
        0 <= i < case.forbidden_contains@.len() ==> !text::occurs_in(
            text::lowered((#[trigger] case.forbidden_contains@[i])@),
            text::lowered(haystack),
        )
    &&& forall|i: int|
        0 <= i < case.expected_ids@.len() ==> top.contains((#[trigger] case.expected_ids@[i])@)
    &&& forall|i: int|
        0 <= i < case.forbidden_ids@.len() ==> !top.contains((#[trigger] case.forbidden_ids@[i])@)
    &&& enough_found(case, hits)
    &&& in_time(case, latency_ms)
    &&& in_budget(case, tokens)
}

/// The name of a case: its own, or its number.
pub open spec fn case_name(case: EvalCase, index: nat) -> Seq<char> {
    match case.name {
        Some(name) => name@,
        None => "case-"@ + text::decimal_text(index + 1),
    }
}

/// Whether a report is what came of a case.
pub open spec fn reports_case(
    r: EvalCaseReport,
    case: EvalCase,
    index: nat,
    default_project_id: Seq<char>,
    observed: EvalObserved,
    latency_ms: u64,
    tokens: usize,
) -> bool {
    let top = text::texts(observed.top_ids@);
    let expected = text::texts(case.expected_ids@);
    let forbidden = text::texts(case.forbidden_ids@);
    &&& r.name@ == case_name(case, index)
    &&& r.target@ == eval::target_text(case)
    &&& r.project_id@ == (match case.project_id {
        Some(project) => project@,
        None => default_project_id,
    })
    &&& r.query@ == case.query@
    &&& r.hits == observed.hits
    &&& r.passed == passes(case, observed.hits, observed.haystack@, top, latency_ms, tokens)
    &&& text::texts(r.expected_ids@) == expected
    &&& text::texts(r.forbidden_ids@) == forbidden
    &&& text::texts(r.matched_expected_ids@) == expected.filter(listed(top))
    &&& text::texts(r.missing_expected_ids@) == expected.filter(unlisted(top))
    &&& text::texts(r.matched_forbidden_ids@) == forbidden.filter(listed(top))
    &&& r.ranks is Some <==> expected.len() > 0
    &&& r.ranks matches Some(ranks) ==> ranks_of(ranks, top, expected)
    &&& r.latency_ms == latency_ms
    &&& r.max_latency_ms == case.max_latency_ms
    &&& r.latency_ok == in_time(case, latency_ms)
    &&& r.estimated_tokens == tokens
    &&& r.max_estimated_tokens == case.max_estimated_tokens
    &&& r.token_budget_ok == in_budget(case, tokens)
    &&& text::texts(r.missing_expected@) == text::texts(case.expected_contains@).filter(
        missing_in(observed.haystack@),
    )
    &&& text::texts(r.forbidden_found@) == text::texts(case.forbidden_contains@).filter(
        found_in(observed.haystack@),
    )
    &&& r.top_ids@ == observed.top_ids@
}

proof fn lemma_filter_empty<A>(s: Seq<A>, p: spec_fn(A) -> bool)
    ensures
        s.filter(p).len() == 0 <==> forall|i: int| 0 <= i < s.len() ==> !p(#[trigger] s[i]),
        s.filter(p).len() <= s.len(),
    decreases s.len(),
{
    reveal(Seq::filter);
    if s.len() > 0 {
        let rest = s.drop_last();
        lemma_filter_empty(rest, p);
        if s.filter(p).len() == 0 {
            assert forall|i: int| 0 <= i < s.len() implies !p(#[trigger] s[i]) by {
                if i < rest.len() {
                    assert(rest[i] == s[i]);
                }
            }
        }
        if forall|i: int| 0 <= i < s.len() ==> !p(#[trigger] s[i]) {
            assert forall|i: int| 0 <= i < rest.len() implies !p(#[trigger] rest[i]) by {
                assert(rest[i] == s[i]);
            }
            assert(!p(s[s.len() - 1]));
        }
    }
}

/// Assesses a case by what was observed.
pub fn assess_case(
    case: &EvalCase,
    index: usize,
    default_project_id: &str,
    observed: EvalObserved,
    latency_ms: u64,
    estimated_tokens: usize,
) -> (r: EvalCaseReport)
    requires
        index < usize::MAX,
    ensures
        reports_case(
            r,
            *case,
            index as nat,
            default_project_id@,
            observed,
            latency_ms,
            estimated_tokens,
        ),
{
    let ghost top = text::texts(observed.top_ids@);
    let matched_expected_ids = keep_listed(&case.expected_ids, &observed.top_ids, true);
    let missing_expected_ids = keep_listed(&case.expected_ids, &observed.top_ids, false);
    let matched_forbidden_ids = keep_listed(&case.forbidden_ids, &observed.top_ids, true);
    let missing_expected = keep_found(
        &case.expected_contains,
        observed.haystack.as_str(),
        false,
    );
    let forbidden_found = keep_found(
        &case.forbidden_contains,
        observed.haystack.as_str(),
        true,
    );
    let enough = match case.min_results {
        Some(least) => observed.hits >= least,
        None => true,
    };
    let latency_ok = match case.max_latency_ms {
        Some(most) => latency_ms <= most,
        None => true,
    };
    let token_budget_ok = match case.max_estimated_tokens {
        Some(most) => estimated_tokens <= most,
        None => true,
    };
    let passed = missing_expected.len() == 0 && missing_expected_ids.len() == 0
        && matched_forbidden_ids.len() == 0 && forbidden_found.len() == 0 && enough && latency_ok
        && token_budget_ok;
    proof {
        let expected = text::texts(case.expected_ids@);
        let forbidden = text::texts(case.forbidden_ids@);
        let wanted = text::texts(case.expected_contains@);
        let unwanted = text::texts(case.forbidden_contains@);
        let hay = observed.haystack@;
        lemma_filter_empty(expected, unlisted(top));
        lemma_filter_empty(forbidden, listed(top));
        lemma_filter_empty(wanted, missing_in(hay));
        lemma_filter_empty(unwanted, found_in(hay));
        assert(text::texts(missing_expected_ids@).len() == missing_expected_ids.len());
        assert(text::texts(matched_forbidden_ids@).len() == matched_forbidden_ids.len());
        assert(text::texts(missing_expected@).len() == missing_expected.len());
        assert(text::texts(forbidden_found@).len() == forbidden_found.len());
        assert(text::texts(matched_expected_ids@).len() == matched_expected_ids.len());
        assert forall|i: int| 0 <= i < case.expected_ids@.len() implies #[trigger] expected[i]
            == case.expected_ids@[i]@ by {}
        if passed {
            assert forall|i: int| 0 <= i < case.expected_ids@.len() implies top.contains(
                (#[trigger] case.expected_ids@[i])@,
            ) by {
                assert(!unlisted(top)(expected[i]));
            }
            assert forall|i: int| 0 <= i < case.forbidden_ids@.len() implies !top.contains(
                (#[trigger] case.forbidden_ids@[i])@,
            ) by {
                assert(!listed(top)(forbidden[i]));
            }
            assert forall|i: int| 0 <= i < case.expected_contains@.len() implies text::occurs_in(
                text::lowered((#[trigger] case.expected_contains@[i])@),
                text::lowered(hay),
            ) by {
                assert(!missing_in(hay)(wanted[i]));
            }
            assert forall|i: int| 0 <= i < case.forbidden_contains@.len() implies !text::occurs_in(
                text::lowered((#[trigger] case.forbidden_contains@[i])@),
                text::lowered(hay),
            ) by {
                assert(!found_in(hay)(unwanted[i]));
            }
        }
        if passes(*case, observed.hits, hay, top, latency_ms, estimated_tokens) {
            assert forall|i: int| 0 <= i < expected.len() implies !unlisted(top)(
                #[trigger] expected[i],
            ) by {
                assert(top.contains(case.expected_ids@[i]@));
            }
            assert forall|i: int| 0 <= i < forbidden.len() implies !listed(top)(
                #[trigger] forbidden[i],
            ) by {
                assert(!top.contains(case.forbidden_ids@[i]@));
            }
            assert forall|i: int| 0 <= i < wanted.len() implies !missing_in(hay)(
                #[trigger] wanted[i],
            ) by {
                assert(text::occurs_in(
                    text::lowered(case.expected_contains@[i]@),
                    text::lowered(hay),
                ));
            }
            assert forall|i: int| 0 <= i < unwanted.len() implies !found_in(hay)(
                #[trigger] unwanted[i],
            ) by {
                assert(!text::occurs_in(
                    text::lowered(case.forbidden_contains@[i]@),
                    text::lowered(hay),
                ));
            }
        }
    }
    let ranks = if case.expected_ids.len() == 0 {
        None
    } else {
        let expected: usize = case.expected_ids.len();
        let returned: usize = observed.top_ids.len();
        Some(
            RankQuality {
                matched: matched_expected_ids.len(),
                expected,
                returned,
                hit_ranks: find_hits(&observed.top_ids, &case.expected_ids),
                ideal_hits: if expected < returned {
                    expected
                } else {
                    returned
                },
            },
        )
    };
    let name = match &case.name {
        Some(name) => owned(name.as_str()),
        None => {
            let number = decimal((index + 1) as u64);
            cat2("case-", number.as_str())
        },
    };
    EvalCaseReport {
        name,
        target: case_target(case),
        project_id: case_project(case, default_project_id),
        query: owned(case.query.as_str()),
        hits: observed.hits,
        passed,
        expected_ids: copy_texts(&case.expected_ids),
        forbidden_ids: copy_texts(&case.forbidden_ids),
        matched_expected_ids,
        missing_expected_ids,
        matched_forbidden_ids,
        ranks,
        latency_ms,
        max_latency_ms: case.max_latency_ms,
        latency_ok,
        estimated_tokens,
        max_estimated_tokens: case.max_estimated_tokens,
        token_budget_ok,
        missing_expected,
        forbidden_found,
        top_ids: observed.top_ids,
    }
}

// ---------------------------------------------------------------------------
// Runs
// ---------------------------------------------------------------------------

/// How many cases a run has, and how many passed and failed.
#[derive(Debug, Clone, Copy, PartialEq, Eq, Structural)]
pub struct EvalTotals {
    pub total_cases: usize,
    pub passed_cases: usize,
    pub failed_cases: usize,
}

/// How many cases passed.
pub open spec fn passed_count(cases: Seq<EvalCaseReport>) -> nat
    decreases cases.len(),
{
    if cases.len() == 0 {
        0
    } else {
        passed_count(cases.drop_last()) + (if cases.last().passed {
            1nat
        } else {
            0
        })
    }
}

/// What a run of cases comes to: every case has passed or failed.
pub fn eval_totals(cases: &Vec<EvalCaseReport>) -> (r: EvalTotals)
    ensures
        r.total_cases == cases.len(),
        r.passed_cases == passed_count(cases@),
        r.passed_cases + r.failed_cases == r.total_cases,
        r.failed_cases == 0 <==> forall|i: int|
            0 <= i < cases.len() ==> (#[trigger] cases@[i]).passed,
{
    let mut passed: usize = 0;
    let mut i: usize = 0;
    assert(cases@.take(0) =~= Seq::<EvalCaseReport>::empty());
    while i < cases.len()
        invariant
            i <= cases.len(),
            passed <= i,
            passed == passed_count(cases@.take(i as int)),
            passed == i <==> forall|j: int| 0 <= j < i ==> (#[trigger] cases@[j]).passed,
        decreases cases.len() - i,
    {
        assert(cases@.take(i + 1).drop_last() =~= cases@.take(i as int));
        if cases[i].passed {
            passed += 1;
        }
        i += 1;
    }
    assert(cases@.take(i as int) =~= cases@);
    EvalTotals {
        total_cases: cases.len(),
        passed_cases: passed,
        failed_cases: cases.len() - passed,
    }
}

} // verus!
