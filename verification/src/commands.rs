//! What the commands of the program decide before and after they ask the store.
use vstd::prelude::*;
use vstd::string::*;
use crate::config::Config;
use crate::digest::blake3_hex;
use crate::file_paths::file_stem;
use crate::launchd_maintenance::MaintenanceLaunchdOptions;
use crate::order::TextSet;
use crate::text::{cat3, copy_opt, decimal, is_blank, owned, same_text};
use crate::{digest, file_paths, order, text};

verus! {

// ---------------------------------------------------------------------------
// The launch agent
// ---------------------------------------------------------------------------

/// What is to be done with the launch agent.
#[derive(Debug, Clone, Copy, PartialEq, Eq, Structural)]
pub enum LaunchdAction {
    Unload,
    Install,
    InstallAndLoad,
    Load,
    Print,
}

/// What is to be done with the launch agent: to unload it comes before all else, and where nothing
/// is asked for, its property list is printed.
pub fn launchd_action(install: bool, load: bool, unload: bool) -> (r: LaunchdAction)
    ensures
        r == (if unload {
            LaunchdAction::Unload
        } else if install && load {
            LaunchdAction::InstallAndLoad
        } else if install {
            LaunchdAction::Install
        } else if load {
            LaunchdAction::Load
        } else {
            LaunchdAction::Print
        }),
{
    if unload {
        LaunchdAction::Unload
    } else if install && load {
        LaunchdAction::InstallAndLoad
    } else if install {
        LaunchdAction::Install
    } else if load {
        LaunchdAction::Load
    } else {
        LaunchdAction::Print
    }
}

/// What the launch agent is to run: everything, with a backup, and for good, where this is not
/// turned off.
pub fn launchd_options(
    command: String,
    interval_seconds: u64,
    project: String,
    dry_run: bool,
    no_all: bool,
    no_backup: bool,
    stdout_path: String,
    stderr_path: String,
) -> (r: MaintenanceLaunchdOptions)
    ensures
        r.command == command,
        r.label@ == "com.dukememory.maintenance"@,
        r.interval_seconds == interval_seconds,
        r.project == Some(project),
        r.apply == !dry_run,
        r.all == !no_all,
        r.backup == !no_backup,
        r.stdout_path == stdout_path,
        r.stderr_path == stderr_path,
{
    MaintenanceLaunchdOptions {
        command,
        label: owned("com.dukememory.maintenance"),
        interval_seconds,
        project: Some(project),
        apply: !dry_run,
        all: !no_all,
        backup: !no_backup,
        stdout_path,
        stderr_path,
    }
}

// ---------------------------------------------------------------------------
// Profiles and roles
// ---------------------------------------------------------------------------

/// What is to change in the profile of a project.
#[derive(Debug, Clone, PartialEq, Eq)]
pub struct ProjectProfileUpdate {
    pub name: Option<String>,
    pub root_path: Option<String>,
    pub project_type: Option<String>,
    pub description: Option<String>,
    pub domains: Option<Vec<String>>,
}

/// What is to change in the profile of a project; none where nothing was given.
pub fn profile_update(
    name: Option<String>,
    root_path: Option<String>,
    project_type: Option<String>,
    description: Option<String>,
    domains: Vec<String>,
) -> (r: Option<ProjectProfileUpdate>)
    ensures
        r is Some <==> name is Some || root_path is Some || project_type is Some
            || description is Some || domains@.len() > 0,
        r matches Some(update) ==> {
            &&& update.name == name
            &&& update.root_path == root_path
            &&& update.project_type == project_type
            &&& update.description == description
            &&& update.domains == (if domains@.len() == 0 {
                None
            } else {
                Some(domains)
            })
        },
{
    if name.is_none() && root_path.is_none() && project_type.is_none() && description.is_none()
        && domains.len() == 0 {
        return None;
    }
    Some(
        ProjectProfileUpdate {
            name,
            root_path,
            project_type,
            description,
            domains: if domains.len() == 0 {
                None
            } else {
                Some(domains)
            },
        },
    )
}

/// Whether a role is that of the model that embeds memories.
pub open spec fn embeds_memories(role: Seq<char>) -> bool {
    role == "memory"@ || role == "memory_embed"@ || role == "embed"@
}

/// Whether a role is that of the model that embeds code.
pub open spec fn embeds_code(role: Seq<char>) -> bool {
    role == "code"@ || role == "code_embed"@ || role == "fast_embed"@
}

/// The model that plays an embedding role.
pub fn embed_model_for_role(config: &Config, role: &str) -> (r: Result<String, String>)
    ensures
        match r {
            Ok(model) => {
                ||| embeds_memories(role@) && model@ == config.ollama_embed_model@
                ||| !embeds_memories(role@) && embeds_code(role@) && model@
                    == config.fast_embed_model@
            },
            Err(message) => !embeds_memories(role@) && !embeds_code(role@) && message@
                == "embed can only test embedding roles; use memory or code. Use doctor or dukememory_models to inspect all roles."@,
        },
{
    if same_text(role, "memory") || same_text(role, "memory_embed") || same_text(role, "embed") {
        Ok(owned(config.memory_embed_model()))
    } else if same_text(role, "code") || same_text(role, "code_embed") || same_text(
        role,
        "fast_embed",
    ) {
        Ok(owned(config.code_embed_model()))
    } else {
        Err(
            owned(
                "embed can only test embedding roles; use memory or code. Use doctor or dukememory_models to inspect all roles.",
            ),
        )
    }
}

// ---------------------------------------------------------------------------
// Memories of code
// ---------------------------------------------------------------------------

/// What is to be done with memories of code.
#[derive(Debug, Clone, PartialEq, Eq)]
pub enum CodeMemoryRequest {
    Remember,
    Archive(String),
    Promote(String),
    Repair,
    Search,
}

/// What is to be done with memories of code, by its values.
pub enum CodeMemoryRequestView {
    Remember,
    Archive(Seq<char>),
    Promote(Seq<char>),
    Repair,
    Search,
}

impl View for CodeMemoryRequest {
    type V = CodeMemoryRequestView;

    open spec fn view(&self) -> CodeMemoryRequestView {
        match self {
            CodeMemoryRequest::Remember => CodeMemoryRequestView::Remember,
            CodeMemoryRequest::Archive(id) => CodeMemoryRequestView::Archive(id@),
            CodeMemoryRequest::Promote(id) => CodeMemoryRequestView::Promote(id@),
            CodeMemoryRequest::Repair => CodeMemoryRequestView::Repair,
            CodeMemoryRequest::Search => CodeMemoryRequestView::Search,
        }
    }
}

/// What an action on memories of code asks for, or the words of its error.
pub open spec fn code_memory_request_of(action: Seq<char>, id: Option<Seq<char>>) -> Result<
    CodeMemoryRequestView,
    Seq<char>,
> {
    if action == "remember"@ {
        Ok(CodeMemoryRequestView::Remember)
    } else if action == "archive"@ {
        match id {
            Some(id) => Ok(CodeMemoryRequestView::Archive(id)),
            None => Err("code-memory --action archive requires --id"@),
        }
    } else if action == "promote"@ {
        match id {
            Some(id) => Ok(CodeMemoryRequestView::Promote(id)),
            None => Err("code-memory --action promote requires --id"@),
        }
    } else if action == "repair"@ {
        Ok(CodeMemoryRequestView::Repair)
    } else if action == "list"@ || action == "search"@ {
        Ok(CodeMemoryRequestView::Search)
    } else {
        Err("invalid code-memory action `"@ + action + "`"@)
    }
}

/// What an action on memories of code asks for.
pub fn code_memory_request(action: &str, id: Option<String>) -> (r: Result<
    CodeMemoryRequest,
    String,
>)
    ensures
        match r {
            Ok(request) => code_memory_request_of(action@, text::opt_text(id)) == Ok::<
                CodeMemoryRequestView,
                Seq<char>,
            >(request@),
            Err(message) => code_memory_request_of(action@, text::opt_text(id)) == Err::<
                CodeMemoryRequestView,
                Seq<char>,
            >(message@),
        },
{
    if same_text(action, "remember") {
        Ok(CodeMemoryRequest::Remember)
    } else if same_text(action, "archive") {
        match id {
            Some(id) => Ok(CodeMemoryRequest::Archive(id)),
            None => Err(owned("code-memory --action archive requires --id")),
        }
    } else if same_text(action, "promote") {
        match id {
            Some(id) => Ok(CodeMemoryRequest::Promote(id)),
            None => Err(owned("code-memory --action promote requires --id")),
        }
    } else if same_text(action, "repair") {
        Ok(CodeMemoryRequest::Repair)
    } else if same_text(action, "list") || same_text(action, "search") {
        Ok(CodeMemoryRequest::Search)
    } else {
        Err(cat3("invalid code-memory action `", action, "`"))
    }
}

// ---------------------------------------------------------------------------
// Graph edges
// ---------------------------------------------------------------------------

/// An end of an edge: an entity that is there, or one to be made under a name.
#[derive(Debug, Clone, PartialEq, Eq)]
pub enum EdgeEnd {
    Known(String),
    Named(String),
}

/// The end of an edge that was given: its identifier comes before its name.
pub fn edge_end(id: Option<String>, name: Option<String>, missing: &str) -> (r: Result<
    EdgeEnd,
    String,
>)
    ensures
        match (id, name) {
            (Some(id), _) => r == Ok::<EdgeEnd, String>(EdgeEnd::Known(id)),
            (None, Some(name)) => r == Ok::<EdgeEnd, String>(EdgeEnd::Named(name)),
            (None, None) => r matches Err(message) && message@ == missing@,
        },
{
    match (id, name) {
        (Some(id), _) => Ok(EdgeEnd::Known(id)),
        (None, Some(name)) => Ok(EdgeEnd::Named(name)),
        (None, None) => Err(owned(missing)),
    }
}

/// A question, where it is not blank: memories are searched for it, and listed without one.
pub fn search_query(query: &Option<String>) -> (r: Option<String>)
    ensures
        text::opt_text(r) == crate::review::not_blank(text::opt_text(*query)),
{
    match query {
        Some(query) => if is_blank(query.as_str()) {
            None
        } else {
            Some(owned(query.as_str()))
        },
        None => None,
    }
}

// ---------------------------------------------------------------------------
// Evaluations
// ---------------------------------------------------------------------------

/// The digest that a suite of cases is known by.
pub fn eval_suite_hash(suite_text: &str) -> (r: String)
    ensures
        r@ == digest::blake3_text(suite_text@),
{
    blake3_hex(suite_text)
}

/// The name of a suite: its own, or that of its file.
pub fn eval_suite_name(name: &Option<String>, file: &str) -> (r: Option<String>)
    ensures
        text::opt_text(r) == (match text::opt_text(*name) {
            Some(name) => Some(name),
            None => match file_paths::path_file_name(file@) {
                Some(file_name) => Some(file_paths::stem_of(file_name)),
                None => None,
            },
        }),
{
    match name {
        Some(_) => copy_opt(name),
        None => file_stem(file),
    }
}

/// The error that a run of an evaluation ends with, where a case failed.
pub fn eval_failure(kind: &str, failed_cases: usize) -> (r: Option<String>)
    ensures
        text::opt_text(r) == (if failed_cases > 0 {
            Some(kind@ + " failed: "@ + (text::decimal_text(failed_cases as nat) + " cases failed"@))
        } else {
            None
        }),
{
    if failed_cases > 0 {
        let n = decimal(failed_cases as u64);
        let cases = text::cat2(n.as_str(), " cases failed");
        Some(cat3(kind, " failed: ", cases.as_str()))
    } else {
        None
    }
}

// ---------------------------------------------------------------------------
// Impact
// ---------------------------------------------------------------------------

/// The files of a relation: that of its source, and that of its target where it is known.
#[derive(Debug, Clone, PartialEq, Eq)]
pub struct RelationFiles {
    pub from_file: String,
    pub target_file: Option<String>,
}

/// Whether a relation touches a file.
pub open spec fn touches(r: RelationFiles, file: Seq<char>) -> bool {
    r.from_file@ == file || text::opt_text(r.target_file) == Some(file)
}

/// Whether any of relations touches a file.
pub open spec fn any_touches(relations: Seq<RelationFiles>, file: Seq<char>) -> bool {
    exists|i: int| 0 <= i < relations.len() && touches(#[trigger] relations[i], file)
}

/// The files that a change to a symbol touches: its own, and those of its callers and callees.
pub open spec fn impacted_files(
    symbol_file: Option<Seq<char>>,
    relations: Seq<RelationFiles>,
) -> Set<Seq<char>> {
    Set::new(|file: Seq<char>| symbol_file == Some(file) || any_touches(relations, file))
}

/// The files that a change to a symbol touches, each once, in ascending order.
pub fn impacted_files_for_relations(
    symbol_file: &Option<String>,
    relations: &Vec<RelationFiles>,
) -> (r: Vec<String>)
    ensures
        text::texts(r@).to_set() == impacted_files(text::opt_text(*symbol_file), relations@),
        order::texts_ascend(text::texts(r@)),
{
    let mut files = TextSet::new();
    if let Some(file) = symbol_file {
        files.insert(owned(file.as_str()));
    }
    let ghost own = text::opt_text(*symbol_file);
    let mut i: usize = 0;
    assert(files@ =~= impacted_files(own, relations@.take(0)));
    while i < relations.len()
        invariant
            i <= relations.len(),
            own == text::opt_text(*symbol_file),
            files.wf(),
            files@ == impacted_files(own, relations@.take(i as int)),
        decreases relations.len() - i,
    {
        let relation = &relations[i];
        files.insert(owned(relation.from_file.as_str()));
        if let Some(target) = &relation.target_file {
            files.insert(owned(target.as_str()));
        }
        proof {
            let now = relations@.take(i + 1);
            let then = relations@.take(i as int);
            assert forall|f: Seq<char>| any_touches(now, f) <==> any_touches(then, f) || touches(
                *relation,
                f,
            ) by {
                if any_touches(then, f) {
                    let k = choose|k: int| 0 <= k < then.len() && touches(#[trigger] then[k], f);
                    assert(now[k] == then[k]);
                }
                if touches(*relation, f) {
                    assert(touches(now[i as int], f));
                }
                if any_touches(now, f) {
                    let k = choose|k: int| 0 <= k < now.len() && touches(#[trigger] now[k], f);
                    if k < i {
                        assert(then[k] == now[k]);
                    }
                }
            }
            assert(files@ =~= impacted_files(own, now));
        }
        i += 1;
    }
    assert(relations@.take(i as int) =~= relations@);
    files.to_list()
}

} // verus!
