//! What is written to the memory store: summaries, extracted candidates, changes of status.
use vstd::prelude::*;
use vstd::string::*;
use crate::records::MemoryStatus;
use crate::text::{cat2, copy_opt, copy_texts, owned};
use crate::text;

verus! {

/// A memory to be stored.
#[derive(Debug)]
pub struct NewMemory {
    pub scope: String,
    pub memory_tier: String,
    pub kind: String,
    pub body: String,
    pub tags: Vec<String>,
    pub source: Option<String>,
    pub status: MemoryStatus,
    pub status_reason: Option<String>,
    pub allow_sensitive: bool,
}

/// A memory to be stored, by its values.
#[verifier::ext_equal]
pub struct NewMemoryView {
    pub scope: Seq<char>,
    pub memory_tier: Seq<char>,
    pub kind: Seq<char>,
    pub body: Seq<char>,
    pub tags: Seq<Seq<char>>,
    pub source: Option<Seq<char>>,
    pub status: MemoryStatus,
    pub status_reason: Option<Seq<char>>,
    pub allow_sensitive: bool,
}

impl View for NewMemory {
    type V = NewMemoryView;

    open spec fn view(&self) -> NewMemoryView {
        NewMemoryView {
            scope: self.scope@,
            memory_tier: self.memory_tier@,
            kind: self.kind@,
            body: self.body@,
            tags: text::texts(self.tags@),
            source: text::opt_text(self.source),
            status: self.status,
            status_reason: text::opt_text(self.status_reason),
            allow_sensitive: self.allow_sensitive,
        }
    }
}

/// What came of storing a memory: its identifier, and the memory that it repeats where it does.
#[derive(Debug, Clone, PartialEq, Eq)]
pub struct RememberOutcome {
    pub id: String,
    pub inserted: bool,
    pub duplicate_of: Option<String>,
}

/// The memory that stands for what was to be stored.
pub open spec fn kept_id(outcome: RememberOutcome) -> Seq<char> {
    match outcome.duplicate_of {
        Some(id) => id@,
        None => outcome.id@,
    }
}

/// The memory that stands for what was to be stored.
pub fn summary_id(outcome: &RememberOutcome) -> (r: String)
    ensures
        r@ == kept_id(*outcome),
{
    match &outcome.duplicate_of {
        Some(id) => owned(id.as_str()),
        None => owned(outcome.id.as_str()),
    }
}

// ---------------------------------------------------------------------------
// Changes of status
// ---------------------------------------------------------------------------

/// How the status of a memory changes.
#[derive(Debug, Clone, Copy, PartialEq, Eq, Structural)]
pub enum ChangeKind {
    Promote,
    Archive,
}

/// A change of the status of a memory.
#[derive(Debug)]
pub struct StatusChange {
    pub id: String,
    pub kind: ChangeKind,
    pub reason: Option<String>,
}

/// A change of the status of a memory, by its values.
#[verifier::ext_equal]
pub struct ChangeView {
    pub id: Seq<char>,
    pub kind: ChangeKind,
    pub reason: Option<Seq<char>>,
}

impl View for StatusChange {
    type V = ChangeView;

    open spec fn view(&self) -> ChangeView {
        ChangeView { id: self.id@, kind: self.kind, reason: text::opt_text(self.reason) }
    }
}

/// Changes by their values.
pub open spec fn change_views(s: Seq<StatusChange>) -> Seq<ChangeView> {
    s.map_values(|c: StatusChange| c@)
}

// ---------------------------------------------------------------------------
// Compaction
// ---------------------------------------------------------------------------

/// A summary that is to take the place of memories.
#[derive(Debug)]
pub struct CompactionProposal {
    pub model: String,
    pub summary_kind: String,
    pub summary_body: String,
    pub tags: Vec<String>,
    pub reason: String,
    pub source_ids: Vec<String>,
}

/// The memory that a summary is stored as.
pub open spec fn summary_memory(
    proposal: CompactionProposal,
    scope: Seq<char>,
    memory_tier: Seq<char>,
    source: Seq<char>,
) -> NewMemoryView {
    NewMemoryView {
        scope,
        memory_tier,
        kind: proposal.summary_kind@,
        body: proposal.summary_body@,
        tags: text::texts(proposal.tags@),
        source: Some(source),
        status: MemoryStatus::Active,
        status_reason: Some(proposal.reason@),
        allow_sensitive: false,
    }
}

/// The memory that a summary is stored as.
pub fn compaction_memory(
    proposal: &CompactionProposal,
    scope: &str,
    memory_tier: &str,
    source: &str,
) -> (r: NewMemory)
    ensures
        r@ == summary_memory(*proposal, scope@, memory_tier@, source@),
{
    NewMemory {
        scope: owned(scope),
        memory_tier: owned(memory_tier),
        kind: owned(proposal.summary_kind.as_str()),
        body: owned(proposal.summary_body.as_str()),
        tags: copy_texts(&proposal.tags),
        source: Some(owned(source)),
        status: MemoryStatus::Active,
        status_reason: Some(owned(proposal.reason.as_str())),
        allow_sensitive: false,
    }
}

/// Each memory that a summary takes the place of is archived, and the reason names the summary.
pub open spec fn compaction_changes(
    source_ids: Seq<Seq<char>>,
    summary: Seq<char>,
) -> Seq<ChangeView> {
    source_ids.map_values(
        |id: Seq<char>|
            ChangeView {
                id,
                kind: ChangeKind::Archive,
                reason: Some("compacted into "@ + summary),
            },
    )
}

/// What is archived when a summary was stored.
pub fn compaction_archives(proposal: &CompactionProposal, summary: &str) -> (r: Vec<StatusChange>)
    ensures
        change_views(r@) == compaction_changes(text::texts(proposal.source_ids@), summary@),
{
    let mut r: Vec<StatusChange> = Vec::new();
    let mut i: usize = 0;
    while i < proposal.source_ids.len()
        invariant
            i <= proposal.source_ids.len(),
            r.len() == i,
            forall|j: int|
                0 <= j < i ==> (#[trigger] r@[j])@ == (ChangeView {
                    id: proposal.source_ids@[j]@,
                    kind: ChangeKind::Archive,
                    reason: Some("compacted into "@ + summary@),
                }),
        decreases proposal.source_ids.len() - i,
    {
        r.push(
            StatusChange {
                id: owned(proposal.source_ids[i].as_str()),
                kind: ChangeKind::Archive,
                reason: Some(cat2("compacted into ", summary)),
            },
        );
        i += 1;
    }
    assert(change_views(r@) =~= compaction_changes(text::texts(proposal.source_ids@), summary@));
    r
}

// ---------------------------------------------------------------------------
// Extraction
// ---------------------------------------------------------------------------

/// A memory that was found in a text.
#[derive(Debug)]
pub struct MemoryCandidate {
    pub kind: String,
    pub body: String,
    pub tags: Vec<String>,
    pub reason: Option<String>,
}

/// The memory that a candidate is stored as: pending, whatever it says.
pub open spec fn pending_memory(
    candidate: MemoryCandidate,
    scope: Seq<char>,
    memory_tier: Seq<char>,
    source: Seq<char>,
) -> NewMemoryView {
    NewMemoryView {
        scope,
        memory_tier,
        kind: candidate.kind@,
        body: candidate.body@,
        tags: text::texts(candidate.tags@),
        source: Some(source),
        status: MemoryStatus::Pending,
        status_reason: text::opt_text(candidate.reason),
        allow_sensitive: false,
    }
}

/// The memory that a candidate is stored as.
pub fn candidate_memory(
    candidate: &MemoryCandidate,
    scope: &str,
    memory_tier: &str,
    source: &str,
) -> (r: NewMemory)
    ensures
        r@ == pending_memory(*candidate, scope@, memory_tier@, source@),
{
    NewMemory {
        scope: owned(scope),
        memory_tier: owned(memory_tier),
        kind: owned(candidate.kind.as_str()),
        body: owned(candidate.body.as_str()),
        tags: copy_texts(&candidate.tags),
        source: Some(owned(source)),
        status: MemoryStatus::Pending,
        status_reason: copy_opt(&candidate.reason),
        allow_sensitive: false,
    }
}

} // verus!
