//! The doctor: all readiness checks in their order, and what they come to.
use vstd::prelude::*;
use vstd::string::*;
use crate::eval::{default_eval_target, EvalCase, EvalSuite};
use crate::eval_report::EvalTotals;
use crate::memory_writes::{NewMemory, NewMemoryView};
use crate::readiness::{
    code_index_freshness_readiness_check,
    code_relation_readiness_check,
    embedding_readiness_checks,
    launchd_readiness_check,
    model_role_readiness_check,
    ra_call_readiness_check,
    ra_reference_readiness_check,
    rust_analyzer_diagnostics_check,
    CheckView,
    CodeFreshnessReport,
    CommandOutcome,
    ReadinessCheck,
    ReadinessState,
};
use crate::records::MemoryStatus;
use crate::text::{cat2, cat3, cat4, cat6, decimal, join_texts, owned};
use crate::{readiness, text};

verus! {

// ---------------------------------------------------------------------------
// Findings
// ---------------------------------------------------------------------------

/// What a trial of the tools came to.
#[derive(Debug, Clone, Copy, PartialEq, Eq, Structural)]
pub struct SmokeReport {
    pub tools_count: usize,
    pub search_hits: usize,
    pub context_hits: usize,
    pub cross_project_hits: usize,
}

/// What a trial on a project of its own came to.
#[derive(Debug, Clone, Copy, PartialEq, Eq, Structural)]
pub struct ProductionAuditReport {
    pub files_indexed: usize,
    pub code_symbols: usize,
    pub code_relations: usize,
    pub memory_hits: usize,
    pub cross_project_hits: usize,
    pub import_memories: usize,
}

/// How the integration with the coding agent is set up.
#[derive(Debug, Clone, PartialEq, Eq)]
pub struct CodexIntegrationReport {
    pub env_keys_configured: usize,
    pub env_keys_expected: usize,
    pub hook_events_configured: Vec<String>,
}

/// All that the doctor found. An evaluation, the diagnostics and the launch agent may be left out.
#[derive(Debug)]
pub struct DoctorFindings {
    pub project_id: String,
    pub missing_roles: Vec<String>,
    pub smoke: Result<SmokeReport, String>,
    pub audit: Result<ProductionAuditReport, String>,
    pub integration: Result<CodexIntegrationReport, String>,
    pub total_memories: u64,
    pub memory_embeddings: u64,
    pub symbols: u64,
    pub symbol_embeddings: u64,
    pub relations: u64,
    pub resolved_relations: u64,
    pub freshness: CodeFreshnessReport,
    pub ra_references: u64,
    pub ra_calls: u64,
    pub eval: Option<Result<EvalTotals, String>>,
    pub diagnostics: Option<CommandOutcome>,
    pub launchd: Option<Option<CommandOutcome>>,
}

/// A number of things in digits.
pub open spec fn digits(n: usize) -> Seq<char> {
    text::decimal_text(n as nat)
}

/// A number of things in digits.
fn write_digits(n: usize) -> (r: String)
    ensures
        r@ == digits(n),
{
    decimal(n as u64)
}

/// The check of the tools.
pub open spec fn smoke_check(result: Result<SmokeReport, String>) -> CheckView {
    match result {
        Ok(r) => readiness::ok_check(
            "mcp_smoke"@,
            digits(r.tools_count) + " tools, search_hits="@ + digits(r.search_hits)
                + ", context_hits="@ + digits(r.context_hits) + ", cross_project_hits="@ + digits(
                r.cross_project_hits,
            ),
        ),
        Err(error) => readiness::fail_check("mcp_smoke"@, error@),
    }
}

/// Checks the tools.
pub fn check_smoke(result: &Result<SmokeReport, String>) -> (r: ReadinessCheck)
    ensures
        r@ == smoke_check(*result),
{
    match result {
        Ok(report) => {
            let tools = write_digits(report.tools_count);
            let search = write_digits(report.search_hits);
            let context = write_digits(report.context_hits);
            let cross = write_digits(report.cross_project_hits);
            let mut detail = cat6(
                tools.as_str(),
                " tools, search_hits=",
                search.as_str(),
                ", context_hits=",
                context.as_str(),
                ", cross_project_hits=",
            );
            detail.append(cross.as_str());
            ReadinessCheck::ok("mcp_smoke", detail)
        },
        Err(error) => ReadinessCheck::fail("mcp_smoke", owned(error.as_str())),
    }
}

/// The check of the trial project.
pub open spec fn audit_check(result: Result<ProductionAuditReport, String>) -> CheckView {
    match result {
        Ok(r) => readiness::ok_check(
            "production_audit"@,
            "files="@ + digits(r.files_indexed) + ", symbols="@ + digits(r.code_symbols)
                + ", relations="@ + digits(r.code_relations) + ", memory_hits="@ + digits(
                r.memory_hits,
            ) + ", cross_project_hits="@ + digits(r.cross_project_hits) + ", import_memories="@
                + digits(r.import_memories),
        ),
        Err(error) => readiness::fail_check("production_audit"@, error@),
    }
}

/// Checks the trial project.
pub fn check_audit(result: &Result<ProductionAuditReport, String>) -> (r: ReadinessCheck)
    ensures
        r@ == audit_check(*result),
{
    match result {
        Ok(report) => {
            let files = write_digits(report.files_indexed);
            let symbols = write_digits(report.code_symbols);
            let relations = write_digits(report.code_relations);
            let hits = write_digits(report.memory_hits);
            let cross = write_digits(report.cross_project_hits);
            let imported = write_digits(report.import_memories);
            let mut detail = cat6(
                "files=",
                files.as_str(),
                ", symbols=",
                symbols.as_str(),
                ", relations=",
                relations.as_str(),
            );
            detail.append(", memory_hits=");
            detail.append(hits.as_str());
            detail.append(", cross_project_hits=");
            detail.append(cross.as_str());
            detail.append(", import_memories=");
            detail.append(imported.as_str());
            ReadinessCheck::ok("production_audit", detail)
        },
        Err(error) => ReadinessCheck::fail("production_audit", owned(error.as_str())),
    }
}

/// The check of the integration.
pub open spec fn integration_check(result: Result<CodexIntegrationReport, String>) -> CheckView {
    match result {
        Ok(r) => readiness::ok_check(
            "codex_integration"@,
            "mcp configured, env="@ + digits(r.env_keys_configured) + "/"@ + digits(
                r.env_keys_expected,
            ) + ", hooks="@ + text::joined(text::texts(r.hook_events_configured@), ","@)
                + ", hook dry-run ok"@,
        ),
        Err(error) => readiness::fail_check("codex_integration"@, error@),
    }
}

/// Checks the integration.
pub fn check_integration(result: &Result<CodexIntegrationReport, String>) -> (r: ReadinessCheck)
    ensures
        r@ == integration_check(*result),
{
    match result {
        Ok(report) => {
            let configured = write_digits(report.env_keys_configured);
            let expected = write_digits(report.env_keys_expected);
            let hooks = join_texts(report.hook_events_configured.as_slice(), ",");
            let mut detail = cat6(
                "mcp configured, env=",
                configured.as_str(),
                "/",
                expected.as_str(),
                ", hooks=",
                hooks.as_str(),
            );
            detail.append(", hook dry-run ok");
            ReadinessCheck::ok("codex_integration", detail)
        },
        Err(error) => ReadinessCheck::fail("codex_integration", owned(error.as_str())),
    }
}

/// The check of the evaluation: fit where no case failed.
pub open spec fn eval_check(result: Result<EvalTotals, String>) -> CheckView {
    match result {
        Ok(totals) => if totals.failed_cases == 0 {
            readiness::ok_check(
                "eval"@,
                "built-in eval passed "@ + digits(totals.passed_cases) + "/"@ + digits(
                    totals.total_cases,
                ) + " cases"@,
            )
        } else {
            readiness::fail_check(
                "eval"@,
                "built-in eval failed "@ + digits(totals.failed_cases) + "/"@ + digits(
                    totals.total_cases,
                ) + " cases"@,
            )
        },
        Err(error) => readiness::fail_check("eval"@, error@),
    }
}

/// Checks the evaluation.
pub fn eval_readiness_check(result: &Result<EvalTotals, String>) -> (r: ReadinessCheck)
    ensures
        r@ == eval_check(*result),
{
    match result {
        Ok(totals) => {
            let total = write_digits(totals.total_cases);
            if totals.failed_cases == 0 {
                let passed = write_digits(totals.passed_cases);
                let mut detail = cat4(
                    "built-in eval passed ",
                    passed.as_str(),
                    "/",
                    total.as_str(),
                );
                detail.append(" cases");
                ReadinessCheck::ok("eval", detail)
            } else {
                let failed = write_digits(totals.failed_cases);
                let mut detail = cat4(
                    "built-in eval failed ",
                    failed.as_str(),
                    "/",
                    total.as_str(),
                );
                detail.append(" cases");
                ReadinessCheck::fail("eval", detail)
            }
        },
        Err(error) => ReadinessCheck::fail("eval", owned(error.as_str())),
    }
}

// ---------------------------------------------------------------------------
// All checks
// ---------------------------------------------------------------------------

/// The check of the evaluation, where it was not left out.
pub open spec fn eval_part(f: DoctorFindings) -> CheckView {
    match f.eval {
        Some(result) => eval_check(result),
        None => readiness::skip_check("eval"@, "skipped by --skip-eval"@),
    }
}

/// The check of the diagnostics, where they were not left out.
pub open spec fn diagnostics_part(f: DoctorFindings) -> CheckView {
    match f.diagnostics {
        Some(CommandOutcome::NotRun(error)) => readiness::fail_check(
            "rust_analyzer_diagnostics"@,
            error@,
        ),
        Some(
            CommandOutcome::Exited { success, status, stdout, stderr },
        ) => readiness::diagnostics_check(
            success,
            status@,
            readiness::written(stdout@),
            readiness::written(stderr@),
            crate::uris::lossy_text(stderr@),
        ),
        None => readiness::skip_check(
            "rust_analyzer_diagnostics"@,
            "skipped by --skip-rust-analyzer-diagnostics"@,
        ),
    }
}

/// The check of the launch agent, where it was not left out.
pub open spec fn launchd_part(f: DoctorFindings) -> CheckView {
    match f.launchd {
        Some(Some(outcome)) => readiness::launchd_outcome_check(outcome, f.project_id@),
        Some(None) => readiness::skip_check("launchd"@, "not macOS"@),
        None => readiness::skip_check("launchd"@, "skipped by --skip-launchd"@),
    }
}

/// All checks in their order.
pub open spec fn all_checks(f: DoctorFindings) -> Seq<CheckView> {
    seq![
        readiness::model_role_check(text::texts(f.missing_roles@)),
        smoke_check(f.smoke),
        audit_check(f.audit),
        integration_check(f.integration),
        readiness::memory_embedding_check(f.total_memories, f.memory_embeddings),
        readiness::code_embedding_check(f.symbols, f.symbol_embeddings),
        readiness::code_relation_check(f.relations, f.resolved_relations),
        readiness::freshness_check(f.freshness),
        readiness::ra_reference_check(f.symbols, f.ra_references),
        readiness::ra_call_check(f.symbols, f.ra_references, f.ra_calls),
        eval_part(f),
        diagnostics_part(f),
        launchd_part(f),
    ]
}

/// Makes all checks.
pub fn deep_checks(findings: &DoctorFindings) -> (r: Vec<ReadinessCheck>)
    ensures
        readiness::check_views(r@) == all_checks(*findings),
{
    let mut r: Vec<ReadinessCheck> = Vec::new();
    r.push(model_role_readiness_check(&findings.missing_roles));
    r.push(check_smoke(&findings.smoke));
    r.push(check_audit(&findings.audit));
    r.push(check_integration(&findings.integration));
    let mut embeddings = embedding_readiness_checks(
        findings.total_memories,
        findings.memory_embeddings,
        findings.symbols,
        findings.symbol_embeddings,
    );
    r.append(&mut embeddings);
    r.push(code_relation_readiness_check(findings.relations, findings.resolved_relations));
    r.push(code_index_freshness_readiness_check(&findings.freshness));
    r.push(ra_reference_readiness_check(findings.symbols, findings.ra_references));
    r.push(
        ra_call_readiness_check(findings.symbols, findings.ra_references, findings.ra_calls),
    );
    r.push(
        match &findings.eval {
            Some(result) => eval_readiness_check(result),
            None => ReadinessCheck::skip("eval", owned("skipped by --skip-eval")),
        },
    );
    r.push(
        match &findings.diagnostics {
            Some(outcome) => rust_analyzer_diagnostics_check(outcome),
            None => ReadinessCheck::skip(
                "rust_analyzer_diagnostics",
                owned("skipped by --skip-rust-analyzer-diagnostics"),
            ),
        },
    );
    r.push(
        match &findings.launchd {
            Some(outcome) => launchd_readiness_check(outcome, findings.project_id.as_str()),
            None => ReadinessCheck::skip("launchd", owned("skipped by --skip-launchd")),
        },
    );
    assert(readiness::check_views(r@) =~= all_checks(*findings));
    r
}

// ---------------------------------------------------------------------------
// The outcome
// ---------------------------------------------------------------------------

/// The words of the checks that failed, in their order.
pub open spec fn failures_of(checks: Seq<CheckView>) -> Seq<Seq<char>>
    decreases checks.len(),
{
    if checks.len() == 0 {
        Seq::empty()
    } else {
        let rest = failures_of(checks.drop_last());
        let last = checks.last();
        if last.state == ReadinessState::Fail {
            rest.push(last.name + ": "@ + last.detail)
        } else {
            rest
        }
    }
}

/// The outcome: an error that names what failed, where anything did.
pub open spec fn outcome_of(checks: Seq<CheckView>) -> Option<Seq<char>> {
    let failures = failures_of(checks);
    if failures.len() == 0 {
        None
    } else {
        Some("doctor deep failed: "@ + text::joined(failures, "; "@))
    }
}

/// Tells the outcome.
pub fn outcome(checks: &Vec<ReadinessCheck>) -> (r: Result<(), String>)
    ensures
        match r {
            Ok(_) => outcome_of(readiness::check_views(checks@)) is None,
            Err(message) => outcome_of(readiness::check_views(checks@)) == Some(message@),
        },
{
    let ghost all = readiness::check_views(checks@);
    let mut failures: Vec<String> = Vec::new();
    let mut i: usize = 0;
    proof {
        assert(all.take(0) =~= Seq::<CheckView>::empty());
        assert(text::texts(failures@) =~= Seq::<Seq<char>>::empty());
    }
    while i < checks.len()
        invariant
            i <= checks.len(),
            all == readiness::check_views(checks@),
            text::texts(failures@) == failures_of(all.take(i as int)),
        decreases checks.len() - i,
    {
        let ghost before = failures@;
        assert(all[i as int] == checks@[i as int]@);
        assert(all.take(i + 1).drop_last() =~= all.take(i as int));
        if checks[i].state == ReadinessState::Fail {
            let words = cat3(checks[i].name.as_str(), ": ", checks[i].detail.as_str());
            let ghost made = words@;
            failures.push(words);
            assert(text::texts(failures@) =~= text::texts(before).push(made));
        }
        i += 1;
    }
    assert(all.take(i as int) =~= all);
    assert(text::texts(failures@).len() == failures.len());
    if failures.len() == 0 {
        Ok(())
    } else {
        let list = join_texts(failures.as_slice(), "; ");
        Err(cat2("doctor deep failed: ", list.as_str()))
    }
}

/// The doctor finds all fit if and only if no check failed; checks that were left out do not count.
pub proof fn outcome_rests_on_failures(checks: Seq<CheckView>)
    ensures
        outcome_of(checks) is None <==> forall|i: int|
            0 <= i < checks.len() ==> (#[trigger] checks[i]).state != ReadinessState::Fail,
    decreases checks.len(),
{
    if checks.len() > 0 {
        let rest = checks.drop_last();
        outcome_rests_on_failures(rest);
        if outcome_of(checks) is None {
            assert forall|i: int| 0 <= i < checks.len() implies (#[trigger] checks[i]).state
                != ReadinessState::Fail by {
                if i < rest.len() {
                    assert(rest[i] == checks[i]);
                }
            }
        }
        if forall|i: int|
            0 <= i < checks.len() ==> (#[trigger] checks[i]).state != ReadinessState::Fail {
            assert forall|i: int| 0 <= i < rest.len() implies (#[trigger] rest[i]).state
                != ReadinessState::Fail by {
                assert(rest[i] == checks[i]);
            }
            assert(checks[checks.len() - 1].state != ReadinessState::Fail);
        }
    }
}

/// The line of a check.
pub fn check_line(check: &ReadinessCheck) -> (r: String)
    ensures
        r@ == "- "@ + check.name@ + ": "@ + readiness::state_word(check.state) + " ("@
            + check.detail@ + ")"@,
{
    let mut line = cat6(
        "- ",
        check.name.as_str(),
        ": ",
        check.state.as_str(),
        " (",
        check.detail.as_str(),
    );
    line.append(")");
    line
}

// ---------------------------------------------------------------------------
// The built-in evaluation
// ---------------------------------------------------------------------------

/// The memory that the built-in evaluation looks for.
pub fn sentinel_memory(scope: &str, memory_tier: &str) -> (r: NewMemory)
    ensures
        r@ == (NewMemoryView {
            scope: scope@,
            memory_tier: memory_tier@,
            kind: "project_rule"@,
            body:
                "Dukememory doctor eval sentinel requires project scoped keyword retrieval."@,
            tags: seq!["doctor"@, "eval"@],
            source: Some("doctor_eval"@),
            status: MemoryStatus::Active,
            status_reason: None,
            allow_sensitive: false,
        }),
{
    let mut tags: Vec<String> = Vec::new();
    tags.push(owned("doctor"));
    tags.push(owned("eval"));
    assert(text::texts(tags@) =~= seq!["doctor"@, "eval"@]);
    NewMemory {
        scope: owned(scope),
        memory_tier: owned(memory_tier),
        kind: owned("project_rule"),
        body: owned("Dukememory doctor eval sentinel requires project scoped keyword retrieval."),
        tags,
        source: Some(owned("doctor_eval")),
        status: MemoryStatus::Active,
        status_reason: None,
        allow_sensitive: false,
    }
}

/// Whether a case is the one of the built-in evaluation.
pub open spec fn is_sentinel_case(case: EvalCase) -> bool {
    &&& text::opt_text(case.name) == Some("sentinel-keyword"@)
    &&& case.target@ == "memory"@
    &&& case.project_id is None
    &&& case.query@ == "doctor eval sentinel keyword retrieval"@
    &&& case.semantic_action is None
    &&& case.as_of is None
    &&& case.decisions@.len() == 0
    &&& text::texts(case.expected_contains@) == seq!["project scoped keyword retrieval"@]
    &&& text::texts(case.forbidden_contains@) == seq!["unrelated project"@]
    &&& case.expected_ids@.len() == 0
    &&& case.forbidden_ids@.len() == 0
    &&& case.min_results == Some(1usize)
    &&& case.max_latency_ms is None
    &&& case.max_estimated_tokens is None
}

/// The built-in evaluation.
pub fn sentinel_suite() -> (r: EvalSuite)
    ensures
        text::opt_text(r.name) == Some("doctor-readiness"@),
        r.cases@.len() == 1,
        is_sentinel_case(r.cases@[0]),
{
    let mut expected: Vec<String> = Vec::new();
    expected.push(owned("project scoped keyword retrieval"));
    assert(text::texts(expected@) =~= seq!["project scoped keyword retrieval"@]);
    let mut forbidden: Vec<String> = Vec::new();
    forbidden.push(owned("unrelated project"));
    assert(text::texts(forbidden@) =~= seq!["unrelated project"@]);
    let case = EvalCase {
        name: Some(owned("sentinel-keyword")),
        target: default_eval_target(),
        project_id: None,
        query: owned("doctor eval sentinel keyword retrieval"),
        semantic_action: None,
        as_of: None,
        decisions: Vec::new(),
        expected_contains: expected,
        forbidden_contains: forbidden,
        expected_ids: Vec::new(),
        forbidden_ids: Vec::new(),
        min_results: Some(1),
        max_latency_ms: None,
        max_estimated_tokens: None,
    };
    let mut cases: Vec<EvalCase> = Vec::new();
    cases.push(case);
    EvalSuite { name: Some(owned("doctor-readiness")), cases }
}

} // verus!
