//! Readiness checks: what the doctor finds fit, unfit or beside the point.
use vstd::prelude::*;
use vstd::string::*;
use crate::text::{cat2, cat3, cat4, cat6, contains_text, decimal, join_texts, owned, trim};
use crate::uris::text_from_utf8_lossy;
use crate::{text, uris};

verus! {

// ---------------------------------------------------------------------------
// Checks
// ---------------------------------------------------------------------------

/// What a check found.
#[derive(Debug, Clone, Copy, PartialEq, Eq, Structural)]
pub enum ReadinessState {
    Ready,
    Fail,
    Skip,
}

/// The word for what a check found.
pub open spec fn state_word(state: ReadinessState) -> Seq<char> {
    match state {
        ReadinessState::Ready => "ok"@,
        ReadinessState::Fail => "fail"@,
        ReadinessState::Skip => "skip"@,
    }
}

impl ReadinessState {
    /// The word for what a check found.
    pub fn as_str(self) -> (r: &'static str)
        ensures
            r@ == state_word(self),
    {
        match self {
            ReadinessState::Ready => "ok",
            ReadinessState::Fail => "fail",
            ReadinessState::Skip => "skip",
        }
    }
}

/// A check, what it found, and in what words.
#[derive(Debug, Clone, PartialEq, Eq)]
pub struct ReadinessCheck {
    pub name: String,
    pub state: ReadinessState,
    pub detail: String,
}

/// A check by its values.
#[verifier::ext_equal]
pub struct CheckView {
    pub name: Seq<char>,
    pub state: ReadinessState,
    pub detail: Seq<char>,
}

impl View for ReadinessCheck {
    type V = CheckView;

    open spec fn view(&self) -> CheckView {
        CheckView { name: self.name@, state: self.state, detail: self.detail@ }
    }
}

/// A check that found what it looked for.
pub open spec fn ok_check(name: Seq<char>, detail: Seq<char>) -> CheckView {
    CheckView { name, state: ReadinessState::Ready, detail }
}

/// A check that did not find what it looked for.
pub open spec fn fail_check(name: Seq<char>, detail: Seq<char>) -> CheckView {
    CheckView { name, state: ReadinessState::Fail, detail }
}

/// A check that was left out.
pub open spec fn skip_check(name: Seq<char>, detail: Seq<char>) -> CheckView {
    CheckView { name, state: ReadinessState::Skip, detail }
}

impl ReadinessCheck {
    /// A check that found what it looked for.
    pub fn ok(name: &str, detail: String) -> (r: Self)
        ensures
            r@ == ok_check(name@, detail@),
    {
        ReadinessCheck { name: owned(name), state: ReadinessState::Ready, detail }
    }

    /// A check that did not find what it looked for.
    pub fn fail(name: &str, detail: String) -> (r: Self)
        ensures
            r@ == fail_check(name@, detail@),
    {
        ReadinessCheck { name: owned(name), state: ReadinessState::Fail, detail }
    }

    /// A check that was left out.
    pub fn skip(name: &str, detail: String) -> (r: Self)
        ensures
            r@ == skip_check(name@, detail@),
    {
        ReadinessCheck { name: owned(name), state: ReadinessState::Skip, detail }
    }
}

/// Checks by their values.
pub open spec fn check_views(s: Seq<ReadinessCheck>) -> Seq<CheckView> {
    s.map_values(|c: ReadinessCheck| c@)
}

// ---------------------------------------------------------------------------
// Models
// ---------------------------------------------------------------------------

/// A part that a model plays, and whether the model is there.
#[derive(Debug, Clone, PartialEq, Eq)]
pub struct ModelRole {
    pub role: String,
    pub model: String,
    pub available: bool,
}

/// The parts whose models are not there.
pub open spec fn missing_roles_of(roles: Seq<ModelRole>) -> Seq<Seq<char>>
    decreases roles.len(),
{
    if roles.len() == 0 {
        Seq::empty()
    } else {
        let rest = missing_roles_of(roles.drop_last());
        let last = roles.last();
        if last.available {
            rest
        } else {
            rest.push(last.role@ + ": "@ + last.model@)
        }
    }
}

/// The parts whose models are not there.
pub fn missing_roles(roles: &Vec<ModelRole>) -> (r: Vec<String>)
    ensures
        text::texts(r@) == missing_roles_of(roles@),
{
    let mut r: Vec<String> = Vec::new();
    let mut i: usize = 0;
    proof {
        assert(roles@.take(0) =~= Seq::<ModelRole>::empty());
        assert(text::texts(r@) =~= Seq::<Seq<char>>::empty());
    }
    while i < roles.len()
        invariant
            i <= roles.len(),
            text::texts(r@) == missing_roles_of(roles@.take(i as int)),
        decreases roles.len() - i,
    {
        let ghost before = r@;
        assert(roles@.take(i + 1).drop_last() =~= roles@.take(i as int));
        if !roles[i].available {
            let words = cat3(roles[i].role.as_str(), ": ", roles[i].model.as_str());
            let ghost made = words@;
            r.push(words);
            assert(text::texts(r@) =~= text::texts(before).push(made));
        }
        i += 1;
    }
    assert(roles@.take(i as int) =~= roles@);
    r
}

/// The check of the models: fit where none is missing.
pub open spec fn model_role_check(missing: Seq<Seq<char>>) -> CheckView {
    if missing.len() == 0 {
        ok_check("model_roles"@, "all configured roles are available"@)
    } else {
        fail_check("model_roles"@, "missing "@ + text::joined(missing, ", "@))
    }
}

/// Checks the models.
pub fn model_role_readiness_check(missing: &Vec<String>) -> (r: ReadinessCheck)
    ensures
        r@ == model_role_check(text::texts(missing@)),
{
    if missing.len() == 0 {
        ReadinessCheck::ok("model_roles", owned("all configured roles are available"))
    } else {
        let list = join_texts(missing.as_slice(), ", ");
        ReadinessCheck::fail("model_roles", cat2("missing ", list.as_str()))
    }
}

/// A model that is there.
#[derive(Debug)]
pub struct InstalledModel {
    pub name: String,
    pub parameter_size: Option<String>,
    pub context_length: Option<u64>,
    pub embedding_length: Option<u64>,
    pub capabilities: Option<Vec<String>>,
}

/// A number, or a dash where there is none.
pub open spec fn number_or_dash(n: Option<u64>) -> Seq<char> {
    match n {
        Some(n) => text::decimal_text(n as nat),
        None => "-"@,
    }
}

/// The line of a model that is there.
pub open spec fn model_line_text(m: InstalledModel) -> Seq<char> {
    "- "@ + m.name@ + " params="@ + (match m.parameter_size {
        Some(size) => size@,
        None => "-"@,
    }) + " context="@ + number_or_dash(m.context_length) + " embedding="@ + number_or_dash(
        m.embedding_length,
    ) + " caps="@ + (match m.capabilities {
        Some(list) => text::joined(text::texts(list@), ","@),
        None => Seq::empty(),
    })
}

/// A number, or a dash where there is none.
fn write_number(n: Option<u64>) -> (r: String)
    ensures
        r@ == number_or_dash(n),
{
    match n {
        Some(n) => decimal(n),
        None => owned("-"),
    }
}

/// The line of a model that is there.
pub fn model_line(model: &InstalledModel) -> (r: String)
    ensures
        r@ == model_line_text(*model),
{
    let mut r = cat3("- ", model.name.as_str(), " params=");
    match &model.parameter_size {
        Some(size) => r.append(size.as_str()),
        None => r.append("-"),
    }
    r.append(" context=");
    let context = write_number(model.context_length);
    r.append(context.as_str());
    r.append(" embedding=");
    let embedding = write_number(model.embedding_length);
    r.append(embedding.as_str());
    r.append(" caps=");
    match &model.capabilities {
        Some(list) => {
            let caps = join_texts(list.as_slice(), ",");
            r.append(caps.as_str());
        },
        None => {
            assert(r@ + Seq::<char>::empty() =~= r@);
        },
    }
    r
}

// ---------------------------------------------------------------------------
// Embeddings and relations
// ---------------------------------------------------------------------------

/// A part and a whole in words.
pub open spec fn of_whole(part: u64, whole: u64, words: Seq<char>) -> Seq<char> {
    text::decimal_text(part as nat) + "/"@ + text::decimal_text(whole as nat) + words
}

/// A part and a whole in words.
fn write_of_whole(part: u64, whole: u64, words: &str) -> (r: String)
    ensures
        r@ == of_whole(part, whole, words@),
{
    let a = decimal(part);
    let b = decimal(whole);
    cat4(a.as_str(), "/", b.as_str(), words)
}

/// The check of the embeddings of memories: fit where each has one.
pub open spec fn memory_embedding_check(total: u64, embedded: u64) -> CheckView {
    let detail = of_whole(embedded, total, " memories embedded"@);
    if embedded >= total {
        ok_check("memory_embeddings"@, detail)
    } else {
        fail_check("memory_embeddings"@, detail)
    }
}

/// The check of the embeddings of symbols: beside the point where there are none, fit where each
/// has one.
pub open spec fn code_embedding_check(symbols: u64, embedded: u64) -> CheckView {
    let detail = of_whole(embedded, symbols, " symbols embedded"@);
    if symbols == 0 {
        skip_check("code_symbol_embeddings"@, "no indexed code symbols"@)
    } else if embedded >= symbols {
        ok_check("code_symbol_embeddings"@, detail)
    } else {
        fail_check("code_symbol_embeddings"@, detail)
    }
}

/// Checks the embeddings of memories and of symbols.
pub fn embedding_readiness_checks(
    total_memories: u64,
    memory_embeddings: u64,
    code_symbols: u64,
    code_symbol_embeddings: u64,
) -> (r: Vec<ReadinessCheck>)
    ensures
        r.len() == 2,
        r@[0]@ == memory_embedding_check(total_memories, memory_embeddings),
        r@[1]@ == code_embedding_check(code_symbols, code_symbol_embeddings),
{
    let memory_detail = write_of_whole(memory_embeddings, total_memories, " memories embedded");
    let memory_check = if memory_embeddings >= total_memories {
        ReadinessCheck::ok("memory_embeddings", memory_detail)
    } else {
        ReadinessCheck::fail("memory_embeddings", memory_detail)
    };
    let code_detail = write_of_whole(code_symbol_embeddings, code_symbols, " symbols embedded");
    let code_check = if code_symbols == 0 {
        ReadinessCheck::skip("code_symbol_embeddings", owned("no indexed code symbols"))
    } else if code_symbol_embeddings >= code_symbols {
        ReadinessCheck::ok("code_symbol_embeddings", code_detail)
    } else {
        ReadinessCheck::fail("code_symbol_embeddings", code_detail)
    };
    let mut r: Vec<ReadinessCheck> = Vec::new();
    r.push(memory_check);
    r.push(code_check);
    r
}

/// The check of code relations: beside the point where there are none, fit where any has its
/// target.
pub open spec fn code_relation_check(relations: u64, resolved: u64) -> CheckView {
    let detail = of_whole(resolved, relations, " relations resolved"@);
    if relations == 0 {
        skip_check("code_relation_targets"@, "no indexed code relations"@)
    } else if resolved == 0 {
        fail_check("code_relation_targets"@, detail)
    } else {
        ok_check("code_relation_targets"@, detail)
    }
}

/// Checks code relations.
pub fn code_relation_readiness_check(relations: u64, resolved_relations: u64) -> (r: ReadinessCheck)
    ensures
        r@ == code_relation_check(relations, resolved_relations),
{
    let detail = write_of_whole(resolved_relations, relations, " relations resolved");
    if relations == 0 {
        ReadinessCheck::skip("code_relation_targets", owned("no indexed code relations"))
    } else if resolved_relations == 0 {
        ReadinessCheck::fail("code_relation_targets", detail)
    } else {
        ReadinessCheck::ok("code_relation_targets", detail)
    }
}

// ---------------------------------------------------------------------------
// Freshness
// ---------------------------------------------------------------------------

/// How the index of code stands to the files on disk.
#[derive(Debug, Clone, PartialEq, Eq)]
pub struct CodeFreshnessReport {
    pub project_id: String,
    pub root_path: String,
    pub files_seen: usize,
    pub indexed_files: usize,
    pub stale_files: Vec<String>,
    pub missing_files: Vec<String>,
    pub deleted_files: Vec<String>,
}

/// Whether the index is that of the files on disk.
pub open spec fn fresh(report: CodeFreshnessReport) -> bool {
    report.stale_files@.len() == 0 && report.missing_files@.len() == 0
        && report.deleted_files@.len() == 0
}

impl CodeFreshnessReport {
    /// Whether the index is that of the files on disk.
    pub fn is_fresh(&self) -> (r: bool)
        ensures
            r == fresh(*self),
    {
        self.stale_files.len() == 0 && self.missing_files.len() == 0 && self.deleted_files.len()
            == 0
    }
}

/// Paths in short: the first three, and how many more there are.
pub open spec fn paths_in_short(paths: Seq<Seq<char>>) -> Seq<char> {
    if paths.len() == 0 {
        "0"@
    } else if paths.len() <= 3 {
        text::joined(paths, ","@)
    } else {
        text::joined(paths.take(3), ","@) + "+"@ + text::decimal_text((paths.len() - 3) as nat)
    }
}

/// Paths in short.
pub fn summarize_paths(paths: &Vec<String>) -> (r: String)
    ensures
        r@ == paths_in_short(text::texts(paths@)),
{
    if paths.len() == 0 {
        return owned("0");
    }
    if paths.len() <= 3 {
        return join_texts(paths.as_slice(), ",");
    }
    let mut first: Vec<String> = Vec::new();
    first.push(owned(paths[0].as_str()));
    first.push(owned(paths[1].as_str()));
    first.push(owned(paths[2].as_str()));
    assert(text::texts(first@) =~= text::texts(paths@).take(3));
    let head = join_texts(first.as_slice(), ",");
    let more = decimal((paths.len() - 3) as u64);
    cat3(head.as_str(), "+", more.as_str())
}

/// The check of the index of code: beside the point where there are no files, fit where it is
/// that of the files on disk.
pub open spec fn freshness_check(report: CodeFreshnessReport) -> CheckView {
    if report.files_seen == 0 && report.indexed_files == 0 {
        skip_check("code_index_freshness"@, "no indexable code files"@)
    } else if fresh(report) {
        ok_check(
            "code_index_freshness"@,
            text::decimal_text(report.indexed_files as nat) + " indexed files match disk for "@
                + report.root_path@,
        )
    } else {
        fail_check(
            "code_index_freshness"@,
            "stale="@ + paths_in_short(text::texts(report.stale_files@)) + ", missing="@
                + paths_in_short(text::texts(report.missing_files@)) + ", deleted="@
                + paths_in_short(text::texts(report.deleted_files@)) + " for project "@
                + report.project_id@ + "; run code-index"@,
        )
    }
}

/// Checks the index of code.
pub fn code_index_freshness_readiness_check(report: &CodeFreshnessReport) -> (r: ReadinessCheck)
    ensures
        r@ == freshness_check(*report),
{
    if report.files_seen == 0 && report.indexed_files == 0 {
        return ReadinessCheck::skip("code_index_freshness", owned("no indexable code files"));
    }
    if report.is_fresh() {
        let files = decimal(report.indexed_files as u64);
        return ReadinessCheck::ok(
            "code_index_freshness",
            cat3(files.as_str(), " indexed files match disk for ", report.root_path.as_str()),
        );
    }
    let stale = summarize_paths(&report.stale_files);
    let missing = summarize_paths(&report.missing_files);
    let deleted = summarize_paths(&report.deleted_files);
    let mut detail = cat6(
        "stale=",
        stale.as_str(),
        ", missing=",
        missing.as_str(),
        ", deleted=",
        deleted.as_str(),
    );
    detail.append(" for project ");
    detail.append(report.project_id.as_str());
    detail.append("; run code-index");
    ReadinessCheck::fail("code_index_freshness", detail)
}

// ---------------------------------------------------------------------------
// Code intelligence
// ---------------------------------------------------------------------------

/// The check of imported references: beside the point without symbols, fit where there are any.
pub open spec fn ra_reference_check(symbols: u64, references: u64) -> CheckView {
    if symbols == 0 {
        skip_check("ra_references"@, "no indexed code symbols"@)
    } else if references == 0 {
        fail_check("ra_references"@, "run code-lsif-index or dukememory_code_lsif_index"@)
    } else {
        ok_check(
            "ra_references"@,
            text::decimal_text(references as nat) + " rust-analyzer references imported"@,
        )
    }
}

/// Checks imported references.
pub fn ra_reference_readiness_check(code_symbols: u64, ra_references: u64) -> (r: ReadinessCheck)
    ensures
        r@ == ra_reference_check(code_symbols, ra_references),
{
    if code_symbols == 0 {
        ReadinessCheck::skip("ra_references", owned("no indexed code symbols"))
    } else if ra_references == 0 {
        ReadinessCheck::fail(
            "ra_references",
            owned("run code-lsif-index or dukememory_code_lsif_index"),
        )
    } else {
        let n = decimal(ra_references);
        ReadinessCheck::ok("ra_references", cat2(n.as_str(), " rust-analyzer references imported"))
    }
}

/// The check of imported calls: beside the point without symbols or references, fit where there
/// are any.
pub open spec fn ra_call_check(symbols: u64, references: u64, calls: u64) -> CheckView {
    if symbols == 0 {
        skip_check("ra_calls"@, "no indexed code symbols"@)
    } else if references == 0 {
        skip_check("ra_calls"@, "no rust-analyzer references imported"@)
    } else if calls == 0 {
        fail_check("ra_calls"@, "no rust-analyzer call edges imported"@)
    } else {
        ok_check(
            "ra_calls"@,
            text::decimal_text(calls as nat) + " rust-analyzer call edges imported"@,
        )
    }
}

/// Checks imported calls.
pub fn ra_call_readiness_check(code_symbols: u64, ra_references: u64, ra_calls: u64) -> (r:
    ReadinessCheck)
    ensures
        r@ == ra_call_check(code_symbols, ra_references, ra_calls),
{
    if code_symbols == 0 {
        ReadinessCheck::skip("ra_calls", owned("no indexed code symbols"))
    } else if ra_references == 0 {
        ReadinessCheck::skip("ra_calls", owned("no rust-analyzer references imported"))
    } else if ra_calls == 0 {
        ReadinessCheck::fail("ra_calls", owned("no rust-analyzer call edges imported"))
    } else {
        let n = decimal(ra_calls);
        ReadinessCheck::ok("ra_calls", cat2(n.as_str(), " rust-analyzer call edges imported"))
    }
}

// ---------------------------------------------------------------------------
// Commands
// ---------------------------------------------------------------------------

/// What came of running a command: that it could not be run, or how it exited and what it wrote.
#[derive(Debug)]
pub enum CommandOutcome {
    NotRun(String),
    Exited { success: bool, status: String, stdout: Vec<u8>, stderr: Vec<u8> },
}

/// What a command wrote, without the white space around it.
pub open spec fn written(bytes: Seq<u8>) -> Seq<char> {
    text::trimmed(uris::lossy_text(bytes))
}

/// What a command wrote, without the white space around it.
fn read_written(bytes: &Vec<u8>) -> (r: String)
    ensures
        r@ == written(bytes@),
{
    let all = text_from_utf8_lossy(bytes.as_slice());
    trim(all.as_str())
}

/// Why a command failed, by how it exited and the texts that it wrote.
pub open spec fn failure_text(status: Seq<char>, out: Seq<char>, err: Seq<char>) -> Seq<char> {
    if out.len() == 0 && err.len() == 0 {
        "command exited with "@ + status
    } else if err.len() == 0 {
        "command exited with "@ + status + ": "@ + out
    } else if out.len() == 0 {
        "command exited with "@ + status + ": "@ + err
    } else {
        "command exited with "@ + status + ": "@ + err + "; stdout: "@ + out
    }
}

/// Tells why a command failed, by how it exited and the texts that it wrote.
pub fn failure_detail(status: &str, out: &str, err: &str) -> (r: String)
    ensures
        r@ == failure_text(status@, out@, err@),
{
    if out.is_empty() && err.is_empty() {
        cat2("command exited with ", status)
    } else if err.is_empty() {
        cat4("command exited with ", status, ": ", out)
    } else if out.is_empty() {
        cat4("command exited with ", status, ": ", err)
    } else {
        cat6("command exited with ", status, ": ", err, "; stdout: ", out)
    }
}

/// Tells why a command failed, by how it exited and the bytes that it wrote.
pub fn command_failure_detail(status: &str, stdout: &Vec<u8>, stderr: &Vec<u8>) -> (r: String)
    ensures
        r@ == failure_text(status@, written(stdout@), written(stderr@)),
{
    let out = read_written(stdout);
    let err = read_written(stderr);
    failure_detail(status, out.as_str(), err.as_str())
}

/// The version that a tool told, or why it told none.
pub open spec fn tool_status_text(success: bool, status: Seq<char>, out: Seq<char>, err: Seq<char>)
    -> Seq<char> {
    if success {
        if out.len() == 0 {
            "available"@
        } else {
            out
        }
    } else {
        "unavailable ("@ + (if err.len() == 0 {
            status
        } else {
            err
        }) + ")"@
    }
}

/// The version that a tool told, by how it exited and the texts that it wrote.
pub fn tool_status(success: bool, status: &str, out: &str, err: &str) -> (r: String)
    ensures
        r@ == tool_status_text(success, status@, out@, err@),
{
    if success {
        if out.is_empty() {
            owned("available")
        } else {
            owned(out)
        }
    } else if err.is_empty() {
        cat3("unavailable (", status, ")")
    } else {
        cat3("unavailable (", err, ")")
    }
}

/// The version that the code analyzer told, or why it told none.
pub fn rust_analyzer_status(outcome: &CommandOutcome) -> (r: String)
    ensures
        r@ == (match outcome {
            CommandOutcome::NotRun(error) => "missing ("@ + error@ + ")"@,
            CommandOutcome::Exited { success, status, stdout, stderr } => tool_status_text(
                *success,
                status@,
                written(stdout@),
                written(stderr@),
            ),
        }),
{
    match outcome {
        CommandOutcome::NotRun(error) => cat3("missing (", error.as_str(), ")"),
        CommandOutcome::Exited { success, status, stdout, stderr } => {
            let out = read_written(stdout);
            let err = read_written(stderr);
            tool_status(*success, status.as_str(), out.as_str(), err.as_str())
        },
    }
}

/// How often a text stands in another, each place counted once.
pub open spec fn times_found(hay: Seq<char>, needle: Seq<char>) -> nat
    decreases hay.len(),
{
    if needle.len() == 0 || hay.len() < needle.len() {
        0
    } else if text::stands_at(hay, needle, 0) {
        1 + times_found(hay.skip(needle.len() as int), needle)
    } else {
        times_found(hay.skip(1), needle)
    }
}

/// Counts how often a text stands in another.
pub fn count_found(hay: &str, needle: &str) -> (r: usize)
    ensures
        r == times_found(hay@, needle@),
{
    let h = text::chars_of(hay);
    let n = text::chars_of(needle);
    let mut count: usize = 0;
    if n.len() == 0 {
        return 0;
    }
    let mut at: usize = 0;
    assert(h@.skip(0) =~= h@);
    while h.len() - at >= n.len()
        invariant
            at <= h.len(),
            count <= at,
            n.len() > 0,
            h@ == hay@,
            n@ == needle@,
            times_found(hay@, needle@) == count + times_found(h@.skip(at as int), n@),
        decreases h.len() - at,
    {
        let ghost rest = h@.skip(at as int);
        let mut k: usize = 0;
        while k < n.len() && h[at + k] == n[k]
            invariant
                k <= n.len(),
                at + n.len() <= h.len(),
                forall|j: int| 0 <= j < k ==> h@[at + j] == n@[j],
            ensures
                k <= n.len(),
                forall|j: int| 0 <= j < k ==> h@[at + j] == n@[j],
                k < n.len() ==> h@[at + k] != n@[k as int],
            decreases n.len() - k,
        {
            k += 1;
        }
        if k == n.len() {
            assert(rest.subrange(0, n@.len() as int) =~= n@);
            assert(text::stands_at(rest, n@, 0));
            assert(rest.skip(n@.len() as int) =~= h@.skip(at + n.len()));
            count += 1;
            at += n.len();
        } else {
            assert(!text::stands_at(rest, n@, 0)) by {
                assert(rest[k as int] == h@[at + k]);
                if text::stands_at(rest, n@, 0) {
                    assert(rest.subrange(0, n@.len() as int)[k as int] == n@[k as int]);
                }
            }
            assert(rest.skip(1) =~= h@.skip(at + 1));
            at += 1;
        }
    }
    count
}

/// The check of the diagnostics of the code analyzer, by what came of it and what it wrote to its
/// errors.
pub open spec fn diagnostics_check(
    success: bool,
    status: Seq<char>,
    out: Seq<char>,
    err: Seq<char>,
    all_err: Seq<char>,
) -> CheckView {
    if success {
        let warnings = times_found(all_err, "WeakWarning"@);
        if warnings == 0 {
            ok_check("rust_analyzer_diagnostics"@, "diagnostic scan complete"@)
        } else {
            ok_check(
                "rust_analyzer_diagnostics"@,
                "diagnostic scan complete with "@ + text::decimal_text(warnings)
                    + " weak warnings"@,
            )
        }
    } else {
        fail_check("rust_analyzer_diagnostics"@, failure_text(status, out, err))
    }
}

/// Checks the diagnostics of the code analyzer, by what came of it and the texts that it wrote.
pub fn check_diagnostics(success: bool, status: &str, out: &str, err: &str, all_err: &str) -> (r:
    ReadinessCheck)
    ensures
        r@ == diagnostics_check(success, status@, out@, err@, all_err@),
{
    if success {
        let warnings = count_found(all_err, "WeakWarning");
        if warnings == 0 {
            ReadinessCheck::ok("rust_analyzer_diagnostics", owned("diagnostic scan complete"))
        } else {
            let n = decimal(warnings as u64);
            ReadinessCheck::ok(
                "rust_analyzer_diagnostics",
                cat3("diagnostic scan complete with ", n.as_str(), " weak warnings"),
            )
        }
    } else {
        ReadinessCheck::fail("rust_analyzer_diagnostics", failure_detail(status, out, err))
    }
}

/// Checks the diagnostics of the code analyzer.
pub fn rust_analyzer_diagnostics_check(outcome: &CommandOutcome) -> (r: ReadinessCheck)
    ensures
        r@ == (match outcome {
            CommandOutcome::NotRun(error) => fail_check("rust_analyzer_diagnostics"@, error@),
            CommandOutcome::Exited { success, status, stdout, stderr } => diagnostics_check(
                *success,
                status@,
                written(stdout@),
                written(stderr@),
                uris::lossy_text(stderr@),
            ),
        }),
{
    match outcome {
        CommandOutcome::NotRun(error) => ReadinessCheck::fail(
            "rust_analyzer_diagnostics",
            owned(error.as_str()),
        ),
        CommandOutcome::Exited { success, status, stdout, stderr } => {
            let out = read_written(stdout);
            let all_err = text_from_utf8_lossy(stderr.as_slice());
            let err = trim(all_err.as_str());
            check_diagnostics(
                *success,
                status.as_str(),
                out.as_str(),
                err.as_str(),
                all_err.as_str(),
            )
        },
    }
}

// ---------------------------------------------------------------------------
// The launch agent
// ---------------------------------------------------------------------------

/// What is wanting in what the system tells of the launch agent.
pub open spec fn launchd_gaps(output: Seq<char>, project_id: Seq<char>) -> Seq<Seq<char>> {
    let a = if text::occurs_in("last exit code = 0"@, output) {
        Seq::empty()
    } else {
        seq!["last exit code is not 0"@]
    };
    let b = if text::occurs_in("--project"@, output) && text::occurs_in(project_id, output) {
        a
    } else {
        a.push("project id is not pinned"@)
    };
    if text::occurs_in("run interval ="@, output) {
        b
    } else {
        b.push("run interval is missing"@)
    }
}

/// The check of the launch agent, by what the system tells of it.
pub open spec fn launchd_check(output: Seq<char>, project_id: Seq<char>) -> CheckView {
    let gaps = launchd_gaps(output, project_id);
    if gaps.len() == 0 {
        ok_check(
            "launchd"@,
            "com.dukememory.maintenance"@ + " loaded for project "@ + project_id,
        )
    } else {
        fail_check("launchd"@, text::joined(gaps, ", "@))
    }
}

/// Checks the launch agent by what the system tells of it.
pub fn launchd_output_readiness_check(output: &str, project_id: &str) -> (r: ReadinessCheck)
    ensures
        r@ == launchd_check(output@, project_id@),
{
    let mut gaps: Vec<String> = Vec::new();
    if !contains_text(output, "last exit code = 0") {
        gaps.push(owned("last exit code is not 0"));
    }
    let ghost a = text::texts(gaps@);
    assert(a =~= (if text::occurs_in("last exit code = 0"@, output@) {
        Seq::empty()
    } else {
        seq!["last exit code is not 0"@]
    }));
    if !contains_text(output, "--project") || !contains_text(output, project_id) {
        gaps.push(owned("project id is not pinned"));
        assert(text::texts(gaps@) =~= a.push("project id is not pinned"@));
    }
    let ghost b = text::texts(gaps@);
    if !contains_text(output, "run interval =") {
        gaps.push(owned("run interval is missing"));
        assert(text::texts(gaps@) =~= b.push("run interval is missing"@));
    }
    assert(text::texts(gaps@) == launchd_gaps(output@, project_id@));
    if gaps.len() == 0 {
        ReadinessCheck::ok(
            "launchd",
            cat3("com.dukememory.maintenance", " loaded for project ", project_id),
        )
    } else {
        ReadinessCheck::fail("launchd", join_texts(gaps.as_slice(), ", "))
    }
}

/// The check of the launch agent where the system was asked for it.
pub open spec fn launchd_outcome_check(outcome: CommandOutcome, project_id: Seq<char>)
    -> CheckView {
    match outcome {
        CommandOutcome::NotRun(error) => fail_check("launchd"@, error@),
        CommandOutcome::Exited { success, status, stdout, stderr } => if success {
            launchd_check(uris::lossy_text(stdout@), project_id)
        } else {
            fail_check(
                "launchd"@,
                failure_text(status@, written(stdout@), written(stderr@)),
            )
        },
    }
}

/// Checks the launch agent by what came of asking the system for it; none where the system has no
/// launch agents.
pub fn launchd_readiness_check(outcome: &Option<CommandOutcome>, project_id: &str) -> (r:
    ReadinessCheck)
    ensures
        r@ == (match outcome {
            None => skip_check("launchd"@, "not macOS"@),
            Some(outcome) => launchd_outcome_check(*outcome, project_id@),
        }),
{
    match outcome {
        None => ReadinessCheck::skip("launchd", owned("not macOS")),
        Some(CommandOutcome::NotRun(error)) => ReadinessCheck::fail(
            "launchd",
            owned(error.as_str()),
        ),
        Some(CommandOutcome::Exited { success, status, stdout, stderr }) => {
            if *success {
                let output = text_from_utf8_lossy(stdout.as_slice());
                launchd_output_readiness_check(output.as_str(), project_id)
            } else {
                ReadinessCheck::fail(
                    "launchd",
                    command_failure_detail(status.as_str(), stdout, stderr),
                )
            }
        },
    }
}

} // verus!
