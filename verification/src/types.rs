//! Shared data types of the pipeline and the fixed-point score scale.
//!
//! Confidence, relevance and similarity scores all live in `[0, 1]` in the
//! product; the stores and the matcher carry them as fixed-point integers
//! with denominator [`SCORE_SCALE`], so that the arithmetic and the store
//! invariants can be verified.  The host binary converts to and from the
//! external services' floating-point scores at the process boundary.

use vstd::prelude::*;

verus! {

/// Denominator of all fixed-point scores: a score `s` stands for
/// `s / SCORE_SCALE`, so `SCORE_SCALE` itself is `1.0`.
pub const SCORE_SCALE: u32 = 1_000_000;

/// The score standing for `0.5`: the fallback similarity when either
/// embedding (or the similarity service's answer) is unavailable.
pub const HALF_SCORE: u32 = 500_000;

/// A score is valid when it does not exceed `1.0`.
pub open spec fn valid_score(s: u32) -> bool {
    s <= SCORE_SCALE
}

/// Who wrote a message of a conversation.
#[derive(Clone, Copy, Debug, PartialEq, Eq, Structural)]
pub enum Role {
    User,
    Assistant,
}

impl Role {
    /// The wire label of the sender, as other subsystems read it.
    pub open spec fn label_view(&self) -> Seq<char> {
        match *self {
            Role::User => "user"@,
            Role::Assistant => "assistant"@,
        }
    }

    /// The wire label of the sender, as other subsystems read it.
    pub fn label(&self) -> (r: String)
        ensures
            r@ == self.label_view(),
    {
        match self {
            Role::User => "user".to_owned(),
            Role::Assistant => "assistant".to_owned(),
        }
    }
}

/// One message of a conversation, in insertion order.
#[derive(Clone, Debug)]
pub struct ChatMessage {
    pub role: Role,
    pub content: String,
    /// Milliseconds since the epoch, supplied by the caller.
    pub created_at: u64,
}

/// One highlighted excerpt attached to a conversation.
#[derive(Clone, Debug)]
pub struct HighlightedExcerpt {
    pub document_title: String,
    pub page_number: u32,
    pub selected_text: String,
    pub created_at: u64,
}

/// Where a session stands in the analysis pipeline.
///
/// `NotAnalyzed` is the initial state; `Processing` is entered before the
/// extraction service is called; `Complete` and `Failed` are terminal for
/// one run (a re-run resets to `Processing`).
#[derive(Clone, Copy, Debug, PartialEq, Eq, Structural)]
pub enum AnalysisStatus {
    NotAnalyzed,
    Processing,
    Complete,
    Failed,
}

impl AnalysisStatus {
    /// The wire label of the status, as other subsystems read it.
    pub open spec fn label_view(&self) -> Seq<char> {
        match *self {
            AnalysisStatus::NotAnalyzed => "none"@,
            AnalysisStatus::Processing => "processing"@,
            AnalysisStatus::Complete => "complete"@,
            AnalysisStatus::Failed => "failed"@,
        }
    }

    /// The wire label of the status, as other subsystems read it.
    pub fn label(&self) -> (r: String)
        ensures
            r@ == self.label_view(),
    {
        match self {
            AnalysisStatus::NotAnalyzed => "none".to_owned(),
            AnalysisStatus::Processing => "processing".to_owned(),
            AnalysisStatus::Complete => "complete".to_owned(),
            AnalysisStatus::Failed => "failed".to_owned(),
        }
    }
}

/// A conversation session.
#[derive(Clone, Debug)]
pub struct Session {
    pub id: u64,
    pub title: String,
    pub messages: Vec<ChatMessage>,
    pub excerpts: Vec<HighlightedExcerpt>,
    pub analysis_status: AnalysisStatus,
    /// At most one session is active at a time; the store enforces it.
    pub active: bool,
    pub created_at: u64,
    pub updated_at: u64,
    /// Set only when an analysis run completes successfully.
    pub completed_at: Option<u64>,
}

/// A persisted, deduplicated knowledge unit.
#[derive(Clone, Debug)]
pub struct Concept {
    pub id: u64,
    pub name: String,
    pub description: String,
    pub tags: Vec<String>,
    /// Fixed-point embedding vector; `None` until the embedding service
    /// has produced one (such concepts are excluded from similarity search).
    pub embedding: Option<Vec<i64>>,
    /// Extraction confidence in `[0, SCORE_SCALE]`.
    pub confidence_score: u32,
    /// How many session occurrences contributed to or reinforced this
    /// concept.
    pub source_chat_count: u64,
    pub created_at: u64,
    pub updated_at: u64,
}

/// "This concept was produced by or attached to this session";
/// at most one link exists per (concept, session) pair.
#[derive(Clone, Debug)]
pub struct ConceptSessionLink {
    pub concept_id: u64,
    pub session_id: u64,
    /// Relevance of the concept to the session, in `[0, SCORE_SCALE]`.
    pub relevance_score: u32,
    pub created_at: u64,
}

/// The type of a relationship edge.  The matcher only ever creates
/// `Related` edges; the type is kept explicit because the durable record
/// carries it.
#[derive(Clone, Copy, Debug, PartialEq, Eq, Structural)]
pub enum RelationKind {
    Related,
}

impl RelationKind {
    /// The wire label of the relationship type.
    pub open spec fn label_view(&self) -> Seq<char> {
        match *self {
            RelationKind::Related => "related"@,
        }
    }

    /// The wire label of the relationship type.
    pub fn label(&self) -> (r: String)
        ensures
            r@ == self.label_view(),
    {
        match self {
            RelationKind::Related => "related".to_owned(),
        }
    }
}

/// A directed, typed, scored edge between two concepts; at most one edge
/// exists per (source, target) pair, and edges are created pairwise in both
/// directions.
#[derive(Clone, Debug)]
pub struct ConceptRelationship {
    pub source_concept_id: u64,
    pub target_concept_id: u64,
    pub relationship_type: RelationKind,
    /// Similarity of the two concepts in `[0, SCORE_SCALE]`.
    pub similarity_score: u32,
    pub created_at: u64,
}

/// A candidate concept proposed by the extraction service, not yet
/// persisted.
#[derive(Clone, Debug)]
pub struct Candidate {
    pub name: String,
    pub description: String,
    pub tags: Vec<String>,
    /// Extraction confidence in `[0, SCORE_SCALE]`.
    pub confidence_score: u32,
    /// Free-text names of concepts the service judged related; resolved
    /// against the store by exact case-insensitive name.
    pub related_concepts: Vec<String>,
}

/// A candidate together with the embedding service's replies for it.
///
/// The embedding and the similarities come from an external service; the
/// host binary obtains them and hands them in as plain values.  `None`
/// means the service failed or was not asked; the matcher then falls back
/// as the design prescribes instead of aborting the batch.
#[derive(Clone, Debug)]
pub struct CandidateInput {
    pub candidate: Candidate,
    /// Embedding of `name + ": " + description`, if the service produced
    /// one.
    pub embedding: Option<Vec<i64>>,
    /// For each entry of `candidate.related_concepts`, the service's
    /// similarity between the candidate and the concept of that name, if
    /// it was computed.
    pub related_similarities: Vec<Option<u32>>,
}

impl CandidateInput {
    /// Shape and range conditions on one candidate input: one similarity
    /// slot per related name, and every score within the scale.
    pub open spec fn wf(&self) -> bool {
        &&& valid_score(self.candidate.confidence_score)
        &&& self.related_similarities@.len() == self.candidate.related_concepts@.len()
        &&& forall|i: int|
            0 <= i < self.related_similarities@.len()
                ==> (#[trigger] self.related_similarities@[i] matches Some(v) ==> valid_score(v))
    }
}

/// The extraction service's reply for one analysis run, as assembled by
/// the host binary.
#[derive(Clone, Debug)]
pub enum ServiceReply {
    /// The service failed or reported failure; the message is propagated
    /// verbatim to the caller.
    Failure { message: String },
    /// The service returned zero or more candidates.
    Success { candidates: Vec<CandidateInput> },
}

/// What `analyze` reports back to the caller.
#[derive(Clone, Debug)]
pub struct AnalysisOutcome {
    pub success: bool,
    pub new_concepts_created: usize,
    pub concepts_linked: usize,
    pub error_message: Option<String>,
}

/// Why an analysis run could not start.  Both errors are raised before any
/// status mutation.
#[derive(Clone, Copy, Debug, PartialEq, Eq, Structural)]
pub enum AnalysisError {
    /// The extraction service's credential is not configured.
    MissingCredential,
    /// No session with the given identifier exists.
    SessionNotFound,
}

impl AnalysisError {
    /// A human-readable description of the error.
    pub open spec fn message_view(&self) -> Seq<char> {
        match *self {
            AnalysisError::MissingCredential => "extraction service credential not configured"@,
            AnalysisError::SessionNotFound => "chat session not found"@,
        }
    }

    /// A human-readable description of the error.
    pub fn message(&self) -> (r: String)
        ensures
            r@ == self.message_view(),
    {
        match self {
            AnalysisError::MissingCredential => {
                "extraction service credential not configured".to_owned()
            },
            AnalysisError::SessionNotFound => "chat session not found".to_owned(),
        }
    }
}

/// The read-only snapshot of a session handed to the extraction service:
/// mutations to the session after analysis starts are not observed.
#[derive(Clone, Debug)]
pub struct TranscriptSnapshot {
    pub session_id: u64,
    pub title: String,
    pub messages: Vec<ChatMessage>,
    pub excerpts: Vec<HighlightedExcerpt>,
}

/// Row counts reported by the datastore.
#[derive(Clone, Copy, Debug, PartialEq, Eq, Structural)]
pub struct DatabaseStats {
    pub document_count: u32,
    pub question_count: u32,
    pub response_count: u32,
    pub knowledge_count: u32,
    pub note_count: u32,
}

} // verus!
